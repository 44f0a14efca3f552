//! Code fragments, identified by the hash of their content.

use vstd::prelude::*;

use crate::compiler::table::Key;

verus! {

/// # Identifies a fragment of code by the hash of its content
#[derive(Clone, Copy, Debug, PartialEq, Eq)]
pub struct FragmentId {
    pub hash: crate::compiler::hash::Hash,
}

/// # An index into the list of functions in a cluster
#[derive(Clone, Copy, Debug, PartialEq, Eq, Structural)]
pub struct FunctionIndexInCluster(pub u32);

/// # A cluster of functions, identified by the fragments that define them
///
/// The function at position `i` has the index `i` within the cluster.
#[derive(Clone, Debug)]
pub struct Cluster {
    pub functions: Vec<FragmentId>,
}

/// # The code fragments of a program
#[derive(Clone, Debug)]
pub struct Fragments {
    /// # The first fragment in the root context
    ///
    /// This indirectly points to all existing fragments.
    pub root: Option<FragmentId>,

    /// # The function clusters
    pub clusters: Vec<Cluster>,
}

impl Fragments {
    /// # Find the cluster that contains the function with the given id
    ///
    /// Returns `None`, if the id does not refer to a named function: all
    /// named functions are grouped into clusters.
    pub fn find_cluster_by_function_id(&self, function_id: &FragmentId) -> (result: Option<&Cluster>)
        ensures
            match result {
                Some(cluster) => exists|i: int|
                    0 <= i < self.clusters@.len() && *cluster == self.clusters@[i]
                        && cluster.functions@.contains(*function_id) && forall|j: int|
                        0 <= j < i ==> !self.clusters@[j].functions@.contains(*function_id),
                None => forall|i: int|
                    0 <= i < self.clusters@.len() ==> !(#[trigger] self.clusters@[i]).functions@.contains(
                        *function_id,
                    ),
            },
    {
        let mut i: usize = 0;
        while i < self.clusters.len()
            invariant
                i <= self.clusters@.len(),
                forall|j: int|
                    0 <= j < i ==> !(#[trigger] self.clusters@[j]).functions@.contains(*function_id),
            decreases self.clusters@.len() - i,
        {
            let cluster = &self.clusters[i];
            let mut k: usize = 0;
            while k < cluster.functions.len()
                invariant
                    i < self.clusters@.len(),
                    *cluster == self.clusters@[i as int],
                    forall|j: int|
                        0 <= j < i ==> !(#[trigger] self.clusters@[j]).functions@.contains(*function_id),
                    k <= cluster.functions@.len(),
                    forall|m: int| 0 <= m < k ==> cluster.functions@[m] != *function_id,
                decreases cluster.functions@.len() - k,
            {
                if cluster.functions[k].hash.same_key(&function_id.hash) {
                    assert(cluster.functions@[k as int] == *function_id);
                    assert(cluster.functions@.contains(*function_id));
                    return Some(cluster);
                }
                k = k + 1;
            }
            assert(!cluster.functions@.contains(*function_id));
            i = i + 1;
        }
        None
    }
}

} // verus!
