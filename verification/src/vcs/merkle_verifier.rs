//! Verification of a Merkle decommitment: the root is recomputed from the
//! queried values and the witness, layer by layer from the largest columns up.

use vstd::prelude::*;
use std::collections::BTreeMap;
use crate::fields::m31::M31;
use crate::vcs::hasher::MerkleHasher;

verus! {

/// Why a decommitment was refused.
#[derive(Clone, Copy, Debug, PartialEq, Eq, Structural)]
pub enum MerkleVerificationError {
    /// The witness ended before all nodes were computed.
    WitnessTooShort,
    /// Some of the witness was left over.
    WitnessTooLong,
    /// Some of the queried values were left over.
    TooManyQueriedValues,
    /// The queried values ended before all queried nodes were computed.
    TooFewQueriedValues,
    /// The root that was computed is not the commitment.
    RootMismatch,
}

/// What the verifier cannot compute by itself: the hashes of the siblings of
/// the paths, and the values of the columns at nodes that were not queried,
/// both in the order in which the nodes are computed.
pub struct MerkleDecommitment<H: MerkleHasher> {
    pub hash_witness: Vec<H::Hash>,
    pub column_witness: Vec<M31>,
}

/// How far a verification has read and what it has computed on a layer.
pub struct LayerState<H: MerkleHasher> {
    /// The next node of the layer below to give a parent.
    pub parent_at: nat,
    /// The next node of the layer below to give its hash.
    pub child_at: nat,
    /// The next query of this layer.
    pub query_at: nat,
    /// The next hash of the witness.
    pub hash_at: nat,
    /// The next column value of the witness.
    pub column_at: nat,
    /// The next queried value.
    pub value_at: nat,
    /// The nodes computed on this layer, each with its hash.
    pub nodes: Seq<(usize, H::Hash)>,
}

/// How many columns have `2^log_size` rows.
pub open spec fn spec_count_columns(column_log_sizes: Seq<u32>, log_size: u32) -> nat
    decreases column_log_sizes.len(),
{
    if column_log_sizes.len() == 0 {
        0
    } else {
        spec_count_columns(column_log_sizes.drop_last(), log_size) + (if column_log_sizes.last()
            == log_size {
            1nat
        } else {
            0nat
        })
    }
}

/// The largest of the sizes, zero if there is none.
pub open spec fn spec_max_log_size(column_log_sizes: Seq<u32>) -> u32
    decreases column_log_sizes.len(),
{
    if column_log_sizes.len() == 0 {
        0
    } else {
        let m = spec_max_log_size(column_log_sizes.drop_last());
        if column_log_sizes.last() > m {
            column_log_sizes.last()
        } else {
            m
        }
    }
}

/// The queries of a layer: those that the map holds for its size, or none.
pub open spec fn spec_layer_queries(queries: Map<u32, Seq<usize>>, log_size: u32) -> Seq<usize> {
    if queries.contains_key(log_size) {
        queries[log_size]
    } else {
        Seq::empty()
    }
}

/// The positions that a map of vectors holds for each size.
pub open spec fn spec_positions(queries: Map<u32, Vec<usize>>) -> Map<u32, Seq<usize>> {
    queries.map_values(|v: Vec<usize>| v@)
}

/// The next node to compute on a layer: the smaller of the parent of the
/// next node below and the next query of the layer.
pub open spec fn spec_next_node<H: MerkleHasher>(
    below: Seq<(usize, H::Hash)>,
    parent_at: nat,
    layer_queries: Seq<usize>,
    query_at: nat,
) -> Option<usize> {
    if parent_at < below.len() {
        let parent = (below[parent_at as int].0 / 2) as usize;
        if query_at < layer_queries.len() && layer_queries[query_at as int] < parent {
            Some(layer_queries[query_at as int])
        } else {
            Some(parent)
        }
    } else if query_at < layer_queries.len() {
        Some(layer_queries[query_at as int])
    } else {
        None
    }
}

/// The first node below, from `at` on, whose parent is not `node`.
pub open spec fn spec_skip_children<H: MerkleHasher>(
    below: Seq<(usize, H::Hash)>,
    at: nat,
    node: usize,
) -> nat
    decreases below.len() - at,
{
    if at < below.len() && below[at as int].0 / 2 == node {
        spec_skip_children::<H>(below, at + 1, node)
    } else {
        at
    }
}

pub proof fn lemma_skip_children<H: MerkleHasher>(
    below: Seq<(usize, H::Hash)>,
    at: nat,
    node: usize,
)
    ensures
        at <= spec_skip_children::<H>(below, at, node),
        at < below.len() && below[at as int].0 / 2 == node ==> at < spec_skip_children::<H>(
            below,
            at,
            node,
        ) <= below.len(),
    decreases below.len() - at,
{
    if at < below.len() && below[at as int].0 / 2 == node {
        lemma_skip_children::<H>(below, at + 1, node);
    }
}

/// The hash of one child of `node`: that of the node below if it was
/// computed, else the next hash of the witness.
pub open spec fn spec_child_hash<H: MerkleHasher>(
    below: Seq<(usize, H::Hash)>,
    hash_witness: Seq<H::Hash>,
    child_at: nat,
    hash_at: nat,
    node: usize,
    side: int,
) -> Result<(H::Hash, nat, nat), MerkleVerificationError> {
    if child_at < below.len() && below[child_at as int].0 == 2 * node + side {
        Ok((below[child_at as int].1, child_at + 1, hash_at))
    } else if hash_at < hash_witness.len() {
        Ok((hash_witness[hash_at as int], child_at, hash_at + 1))
    } else {
        Err(MerkleVerificationError::WitnessTooShort)
    }
}

/// One node of a layer: its children, where the layer has a layer below,
/// its column values, read from the queried values if the node was queried
/// and from the witness if not, and its hash.
pub open spec fn spec_node_step<H: MerkleHasher>(
    below: Option<Seq<(usize, H::Hash)>>,
    layer_queries: Seq<usize>,
    n_columns: nat,
    hash_witness: Seq<H::Hash>,
    column_witness: Seq<M31>,
    queried_values: Seq<M31>,
    st: LayerState<H>,
    node: usize,
) -> Result<LayerState<H>, MerkleVerificationError> {
    let nodes_below = match below {
        Some(b) => b,
        None => Seq::empty(),
    };
    let parent_at = spec_skip_children::<H>(nodes_below, st.parent_at, node);
    let children: Result<(Option<(H::Hash, H::Hash)>, nat, nat), MerkleVerificationError> =
        if below.is_some() {
        match spec_child_hash::<H>(nodes_below, hash_witness, st.child_at, st.hash_at, node, 0) {
            Err(e) => Err(e),
            Ok((left, c1, h1)) => match spec_child_hash::<H>(
                nodes_below,
                hash_witness,
                c1,
                h1,
                node,
                1,
            ) {
                Err(e) => Err(e),
                Ok((right, c2, h2)) => Ok((Some((left, right)), c2, h2)),
            },
        }
    } else {
        Ok((None, st.child_at, st.hash_at))
    };
    match children {
        Err(e) => Err(e),
        Ok((hashes, child_at, hash_at)) => {
            if st.query_at < layer_queries.len() && layer_queries[st.query_at as int] == node {
                if st.value_at + n_columns <= queried_values.len() {
                    let values = queried_values.subrange(
                        st.value_at as int,
                        (st.value_at + n_columns) as int,
                    );
                    Ok(
                        LayerState {
                            parent_at,
                            child_at,
                            query_at: st.query_at + 1,
                            hash_at,
                            column_at: st.column_at,
                            value_at: st.value_at + n_columns,
                            nodes: st.nodes.push((node, H::spec_hash_node(hashes, values))),
                        },
                    )
                } else {
                    Err(MerkleVerificationError::TooFewQueriedValues)
                }
            } else {
                if st.column_at + n_columns <= column_witness.len() {
                    let values = column_witness.subrange(
                        st.column_at as int,
                        (st.column_at + n_columns) as int,
                    );
                    Ok(
                        LayerState {
                            parent_at,
                            child_at,
                            query_at: st.query_at,
                            hash_at,
                            column_at: st.column_at + n_columns,
                            value_at: st.value_at,
                            nodes: st.nodes.push((node, H::spec_hash_node(hashes, values))),
                        },
                    )
                } else {
                    Err(MerkleVerificationError::WitnessTooShort)
                }
            }
        },
    }
}

/// How much of a sequence of length `len` is left from `at` on.
pub open spec fn spec_remaining(len: nat, at: nat) -> nat {
    if at <= len {
        (len - at) as nat
    } else {
        0
    }
}

/// The rest of a layer, from the state `st` on.
pub open spec fn spec_layer<H: MerkleHasher>(
    below: Option<Seq<(usize, H::Hash)>>,
    layer_queries: Seq<usize>,
    n_columns: nat,
    hash_witness: Seq<H::Hash>,
    column_witness: Seq<M31>,
    queried_values: Seq<M31>,
    st: LayerState<H>,
) -> Result<LayerState<H>, MerkleVerificationError>
    decreases
            spec_remaining(
                match below {
                    Some(b) => b.len(),
                    None => 0,
                },
                st.parent_at,
            ) + spec_remaining(layer_queries.len(), st.query_at),
    via spec_layer_decreases::<H>
{
    let nodes_below = match below {
        Some(b) => b,
        None => Seq::empty(),
    };
    match spec_next_node::<H>(nodes_below, st.parent_at, layer_queries, st.query_at) {
        None => Ok(st),
        Some(node) => match spec_node_step::<H>(
            below,
            layer_queries,
            n_columns,
            hash_witness,
            column_witness,
            queried_values,
            st,
            node,
        ) {
            Err(e) => Err(e),
            Ok(next) => spec_layer::<H>(
                below,
                layer_queries,
                n_columns,
                hash_witness,
                column_witness,
                queried_values,
                next,
            ),
        },
    }
}

/// One step of a layer.
pub proof fn lemma_layer_unfold<H: MerkleHasher>(
    below: Option<Seq<(usize, H::Hash)>>,
    layer_queries: Seq<usize>,
    n_columns: nat,
    hash_witness: Seq<H::Hash>,
    column_witness: Seq<M31>,
    queried_values: Seq<M31>,
    st: LayerState<H>,
)
    ensures
        spec_layer::<H>(
            below,
            layer_queries,
            n_columns,
            hash_witness,
            column_witness,
            queried_values,
            st,
        ) == (match spec_next_node::<H>(
            match below {
                Some(b) => b,
                None => Seq::empty(),
            },
            st.parent_at,
            layer_queries,
            st.query_at,
        ) {
            None => Ok(st),
            Some(node) => match spec_node_step::<H>(
                below,
                layer_queries,
                n_columns,
                hash_witness,
                column_witness,
                queried_values,
                st,
                node,
            ) {
                Err(e) => Err(e),
                Ok(next) => spec_layer::<H>(
                    below,
                    layer_queries,
                    n_columns,
                    hash_witness,
                    column_witness,
                    queried_values,
                    next,
                ),
            },
        }),
{
}

#[via_fn]
proof fn spec_layer_decreases<H: MerkleHasher>(
    below: Option<Seq<(usize, H::Hash)>>,
    layer_queries: Seq<usize>,
    n_columns: nat,
    hash_witness: Seq<H::Hash>,
    column_witness: Seq<M31>,
    queried_values: Seq<M31>,
    st: LayerState<H>,
) {
    let nodes_below = match below {
        Some(b) => b,
        None => Seq::empty(),
    };
    match spec_next_node::<H>(nodes_below, st.parent_at, layer_queries, st.query_at) {
        None => {},
        Some(node) => {
            lemma_skip_children::<H>(nodes_below, st.parent_at, node);
            match spec_node_step::<H>(
                below,
                layer_queries,
                n_columns,
                hash_witness,
                column_witness,
                queried_values,
                st,
                node,
            ) {
                Err(e) => {},
                Ok(next) => {
                    assert(next.parent_at == spec_skip_children::<H>(
                        nodes_below,
                        st.parent_at,
                        node,
                    ));
                    assert(next.query_at >= st.query_at);
                    if st.parent_at < nodes_below.len() && nodes_below[st.parent_at as int].0 / 2
                        == node {
                    } else {
                        assert(st.query_at < layer_queries.len() && layer_queries[st.query_at as int]
                            == node);
                        assert(next.query_at == st.query_at + 1);
                    }
                },
            }
        },
    }
}

/// The layers from `layer` down to the root, given the nodes of the layer below.
pub open spec fn spec_layers<H: MerkleHasher>(
    column_log_sizes: Seq<u32>,
    queries: Map<u32, Seq<usize>>,
    hash_witness: Seq<H::Hash>,
    column_witness: Seq<M31>,
    queried_values: Seq<M31>,
    layer: int,
    below: Option<Seq<(usize, H::Hash)>>,
    hash_at: nat,
    column_at: nat,
    value_at: nat,
) -> Result<LayerState<H>, MerkleVerificationError>
    decreases layer + 1,
{
    if layer < 0 {
        Ok(
            LayerState {
                parent_at: 0,
                child_at: 0,
                query_at: 0,
                hash_at,
                column_at,
                value_at,
                nodes: match below {
                    Some(b) => b,
                    None => Seq::empty(),
                },
            },
        )
    } else {
        let start = LayerState::<H> {
            parent_at: 0,
            child_at: 0,
            query_at: 0,
            hash_at,
            column_at,
            value_at,
            nodes: Seq::empty(),
        };
        match spec_layer::<H>(
            below,
            spec_layer_queries(queries, layer as u32),
            spec_count_columns(column_log_sizes, layer as u32),
            hash_witness,
            column_witness,
            queried_values,
            start,
        ) {
            Err(e) => Err(e),
            Ok(st) => spec_layers::<H>(
                column_log_sizes,
                queries,
                hash_witness,
                column_witness,
                queried_values,
                layer - 1,
                Some(st.nodes),
                st.hash_at,
                st.column_at,
                st.value_at,
            ),
        }
    }
}

/// Whether a decommitment is accepted for a commitment: the root is
/// recomputed, witness and queried values are used up exactly, and the one
/// node left at the top has the committed hash.
pub open spec fn spec_verify<H: MerkleHasher>(
    root: H::Hash,
    column_log_sizes: Seq<u32>,
    queries: Map<u32, Seq<usize>>,
    queried_values: Seq<M31>,
    hash_witness: Seq<H::Hash>,
    column_witness: Seq<M31>,
) -> Result<(), MerkleVerificationError> {
    if column_log_sizes.len() == 0 {
        Ok(())
    } else {
        match spec_layers::<H>(
            column_log_sizes,
            queries,
            hash_witness,
            column_witness,
            queried_values,
            spec_max_log_size(column_log_sizes) as int,
            None,
            0,
            0,
            0,
        ) {
            Err(e) => Err(e),
            Ok(st) => {
                if st.hash_at != hash_witness.len() {
                    Err(MerkleVerificationError::WitnessTooLong)
                } else if st.value_at != queried_values.len() {
                    Err(MerkleVerificationError::TooManyQueriedValues)
                } else if st.column_at != column_witness.len() {
                    Err(MerkleVerificationError::WitnessTooLong)
                } else if st.nodes.len() != 1 || st.nodes[0].1 != root {
                    Err(MerkleVerificationError::RootMismatch)
                } else {
                    Ok(())
                }
            },
        }
    }
}

/// A commitment to columns of given sizes.
pub struct MerkleVerifier<H: MerkleHasher> {
    pub root: H::Hash,
    pub column_log_sizes: Vec<u32>,
}

/// The values `src[at..at + n]`.
fn take_values(src: &Vec<M31>, at: usize, n: usize) -> (r: Vec<M31>)
    requires
        at + n <= src.len(),
    ensures
        r@ == src@.subrange(at as int, at + n),
{
    let mut out: Vec<M31> = Vec::with_capacity(n);
    let mut i: usize = 0;
    while i < n
        invariant
            i <= n,
            at + n <= src.len(),
            out@ == src@.subrange(at as int, at + i),
        decreases n - i,
    {
        out.push(src[at + i]);
        proof {
            assert(out@ =~= src@.subrange(at as int, at + i + 1));
        }
        i = i + 1;
    }
    out
}

impl<H: MerkleHasher> MerkleVerifier<H> {
    pub fn new(root: H::Hash, column_log_sizes: Vec<u32>) -> (r: MerkleVerifier<H>)
        ensures
            r.root == root,
            r.column_log_sizes == column_log_sizes,
    {
        MerkleVerifier { root, column_log_sizes }
    }

    /// How many columns have `2^log_size` rows.
    pub fn n_columns(&self, log_size: u32) -> (r: usize)
        ensures
            r == spec_count_columns(self.column_log_sizes@, log_size),
    {
        let mut count: usize = 0;
        let mut i: usize = 0;
        while i < self.column_log_sizes.len()
            invariant
                i <= self.column_log_sizes.len(),
                count <= i,
                count == spec_count_columns(self.column_log_sizes@.subrange(0, i as int), log_size),
            decreases self.column_log_sizes.len() - i,
        {
            proof {
                let s = self.column_log_sizes@.subrange(0, i + 1);
                assert(s.drop_last() =~= self.column_log_sizes@.subrange(0, i as int));
            }
            if self.column_log_sizes[i] == log_size {
                count = count + 1;
            }
            i = i + 1;
        }
        proof {
            assert(self.column_log_sizes@.subrange(0, self.column_log_sizes.len() as int)
                =~= self.column_log_sizes@);
        }
        count
    }

    /// The largest size of a column, zero if there is no column.
    pub fn max_log_size(&self) -> (r: u32)
        ensures
            r == spec_max_log_size(self.column_log_sizes@),
    {
        let mut m: u32 = 0;
        let mut i: usize = 0;
        while i < self.column_log_sizes.len()
            invariant
                i <= self.column_log_sizes.len(),
                m == spec_max_log_size(self.column_log_sizes@.subrange(0, i as int)),
            decreases self.column_log_sizes.len() - i,
        {
            proof {
                let s = self.column_log_sizes@.subrange(0, i + 1);
                assert(s.drop_last() =~= self.column_log_sizes@.subrange(0, i as int));
            }
            if self.column_log_sizes[i] > m {
                m = self.column_log_sizes[i];
            }
            i = i + 1;
        }
        proof {
            assert(self.column_log_sizes@.subrange(0, self.column_log_sizes.len() as int)
                =~= self.column_log_sizes@);
        }
        m
    }

    /// The hash of one child of `node`.
    fn child_hash(
        below: &Vec<(usize, H::Hash)>,
        hash_witness: &Vec<H::Hash>,
        child_at: usize,
        hash_at: usize,
        node: usize,
        side: usize,
    ) -> (r: Result<(H::Hash, usize, usize), MerkleVerificationError>)
        requires
            side <= 1,
            child_at <= below.len(),
            hash_at <= hash_witness.len(),
        ensures
            match (r, spec_child_hash::<H>(
                below@,
                hash_witness@,
                child_at as nat,
                hash_at as nat,
                node,
                side as int,
            )) {
                (Ok((h, c, w)), Ok((sh, sc, sw))) => h == sh && c == sc && w == sw
                    && c <= below.len() && w <= hash_witness.len(),
                (Err(e), Err(se)) => e == se,
                _ => false,
            },
    {
        if child_at < below.len() && below[child_at].0 / 2 == node && below[child_at].0 % 2
            == side {
            Ok((below[child_at].1, child_at + 1, hash_at))
        } else if hash_at < hash_witness.len() {
            Ok((hash_witness[hash_at], child_at, hash_at + 1))
        } else {
            Err(MerkleVerificationError::WitnessTooShort)
        }
    }

    /// Computes the nodes of one layer.
    fn verify_layer(
        below: &Option<Vec<(usize, H::Hash)>>,
        layer_queries: &Vec<usize>,
        n_columns: usize,
        hash_witness: &Vec<H::Hash>,
        column_witness: &Vec<M31>,
        queried_values: &Vec<M31>,
        hash_at: usize,
        column_at: usize,
        value_at: usize,
    ) -> (r: Result<(Vec<(usize, H::Hash)>, usize, usize, usize), MerkleVerificationError>)
        requires
            hash_at <= hash_witness.len(),
            column_at <= column_witness.len(),
            value_at <= queried_values.len(),
        ensures
            match (r, spec_layer::<H>(
                match below {
                    Some(b) => Some(b@),
                    None => None,
                },
                layer_queries@,
                n_columns as nat,
                hash_witness@,
                column_witness@,
                queried_values@,
                LayerState {
                    parent_at: 0,
                    child_at: 0,
                    query_at: 0,
                    hash_at: hash_at as nat,
                    column_at: column_at as nat,
                    value_at: value_at as nat,
                    nodes: Seq::empty(),
                },
            )) {
                (Ok((nodes, h, c, v)), Ok(st)) => nodes@ == st.nodes && h == st.hash_at && c
                    == st.column_at && v == st.value_at && h <= hash_witness.len() && c
                    <= column_witness.len() && v <= queried_values.len(),
                (Err(e), Err(se)) => e == se,
                _ => false,
            },
    {
        let ghost spec_below: Option<Seq<(usize, H::Hash)>> = match below {
            Some(b) => Some(b@),
            None => None,
        };
        let ghost start = LayerState::<H> {
            parent_at: 0,
            child_at: 0,
            query_at: 0,
            hash_at: hash_at as nat,
            column_at: column_at as nat,
            value_at: value_at as nat,
            nodes: Seq::empty(),
        };
        let empty: Vec<(usize, H::Hash)> = Vec::new();
        let nodes_below: &Vec<(usize, H::Hash)> = match below {
            Some(b) => b,
            None => &empty,
        };
        let mut parent_at: usize = 0;
        let mut child_at: usize = 0;
        let mut query_at: usize = 0;
        let mut hash_pos = hash_at;
        let mut column_pos = column_at;
        let mut value_pos = value_at;
        let mut nodes: Vec<(usize, H::Hash)> = Vec::new();
        loop
            invariant
                spec_below == (match below {
                    Some(b) => Some(b@),
                    None => None,
                }),
                start == (LayerState::<H> {
                    parent_at: 0,
                    child_at: 0,
                    query_at: 0,
                    hash_at: hash_at as nat,
                    column_at: column_at as nat,
                    value_at: value_at as nat,
                    nodes: Seq::empty(),
                }),
                nodes_below@ == (match spec_below {
                    Some(b) => b,
                    None => Seq::empty(),
                }),
                spec_below.is_some() == below.is_some(),
                parent_at <= nodes_below.len(),
                child_at <= nodes_below.len(),
                query_at <= layer_queries.len(),
                hash_pos <= hash_witness.len(),
                column_pos <= column_witness.len(),
                value_pos <= queried_values.len(),
                spec_layer::<H>(
                    spec_below,
                    layer_queries@,
                    n_columns as nat,
                    hash_witness@,
                    column_witness@,
                    queried_values@,
                    LayerState {
                        parent_at: parent_at as nat,
                        child_at: child_at as nat,
                        query_at: query_at as nat,
                        hash_at: hash_pos as nat,
                        column_at: column_pos as nat,
                        value_at: value_pos as nat,
                        nodes: nodes@,
                    },
                ) == spec_layer::<H>(
                    spec_below,
                    layer_queries@,
                    n_columns as nat,
                    hash_witness@,
                    column_witness@,
                    queried_values@,
                    start,
                ),
            decreases nodes_below.len() - parent_at + layer_queries.len() - query_at,
        {
            let ghost cur = LayerState::<H> {
                parent_at: parent_at as nat,
                child_at: child_at as nat,
                query_at: query_at as nat,
                hash_at: hash_pos as nat,
                column_at: column_pos as nat,
                value_at: value_pos as nat,
                nodes: nodes@,
            };
            let ghost next_node = spec_next_node::<H>(
                nodes_below@,
                parent_at as nat,
                layer_queries@,
                query_at as nat,
            );
            proof {
                lemma_layer_unfold::<H>(
                    spec_below,
                    layer_queries@,
                    n_columns as nat,
                    hash_witness@,
                    column_witness@,
                    queried_values@,
                    cur,
                );
            }
            // The next node: the smaller of the next parent and the next query.
            let node: usize = if parent_at < nodes_below.len() {
                let parent = nodes_below[parent_at].0 / 2;
                if query_at < layer_queries.len() && layer_queries[query_at] < parent {
                    layer_queries[query_at]
                } else {
                    parent
                }
            } else if query_at < layer_queries.len() {
                layer_queries[query_at]
            } else {
                assert(next_node.is_none());
                return Ok((nodes, hash_pos, column_pos, value_pos));
            };
            assert(next_node == Some(node));
            let ghost step = spec_node_step::<H>(
                spec_below,
                layer_queries@,
                n_columns as nat,
                hash_witness@,
                column_witness@,
                queried_values@,
                cur,
                node,
            );
            let ghost parent_before = parent_at;
            while parent_at < nodes_below.len() && nodes_below[parent_at].0 / 2 == node
                invariant
                    parent_before <= parent_at <= nodes_below.len(),
                    spec_skip_children::<H>(nodes_below@, parent_at as nat, node)
                        == spec_skip_children::<H>(nodes_below@, parent_before as nat, node),
                decreases nodes_below.len() - parent_at,
            {
                parent_at = parent_at + 1;
            }
            proof {
                lemma_skip_children::<H>(nodes_below@, parent_before as nat, node);
            }
            let hashes: Option<(H::Hash, H::Hash)> = if below.is_some() {
                let left = Self::child_hash(nodes_below, hash_witness, child_at, hash_pos, node, 0);
                match left {
                    Err(e) => {
                        assert(step == Err::<LayerState<H>, MerkleVerificationError>(e));
                        return Err(e);
                    },
                    Ok((left_hash, c1, h1)) => {
                        let right = Self::child_hash(nodes_below, hash_witness, c1, h1, node, 1);
                        match right {
                            Err(e) => {
                                assert(step == Err::<LayerState<H>, MerkleVerificationError>(e));
                                return Err(e);
                            },
                            Ok((right_hash, c2, h2)) => {
                                child_at = c2;
                                hash_pos = h2;
                                Some((left_hash, right_hash))
                            },
                        }
                    },
                }
            } else {
                None
            };
            if query_at < layer_queries.len() && layer_queries[query_at] == node {
                if n_columns > queried_values.len() - value_pos {
                    assert(step == Err::<LayerState<H>, MerkleVerificationError>(
                        MerkleVerificationError::TooFewQueriedValues,
                    ));
                    return Err(MerkleVerificationError::TooFewQueriedValues);
                }
                let values = take_values(queried_values, value_pos, n_columns);
                nodes.push((node, H::hash_node(hashes, &values)));
                query_at = query_at + 1;
                value_pos = value_pos + n_columns;
            } else {
                if n_columns > column_witness.len() - column_pos {
                    assert(step == Err::<LayerState<H>, MerkleVerificationError>(
                        MerkleVerificationError::WitnessTooShort,
                    ));
                    return Err(MerkleVerificationError::WitnessTooShort);
                }
                let values = take_values(column_witness, column_pos, n_columns);
                nodes.push((node, H::hash_node(hashes, &values)));
                column_pos = column_pos + n_columns;
            }
            assert(step == Ok::<LayerState<H>, MerkleVerificationError>(
                LayerState {
                    parent_at: parent_at as nat,
                    child_at: child_at as nat,
                    query_at: query_at as nat,
                    hash_at: hash_pos as nat,
                    column_at: column_pos as nat,
                    value_at: value_pos as nat,
                    nodes: nodes@,
                },
            ));
        }
    }

    /// Recomputes the root from the queried values and the decommitment, and
    /// compares it with the commitment.
    pub fn verify(
        &self,
        queries_per_log_size: &BTreeMap<u32, Vec<usize>>,
        queried_values: &Vec<M31>,
        decommitment: &MerkleDecommitment<H>,
    ) -> (r: Result<(), MerkleVerificationError>)
        ensures
            r == spec_verify::<H>(
                self.root,
                self.column_log_sizes@,
                spec_positions(queries_per_log_size@),
                queried_values@,
                decommitment.hash_witness@,
                decommitment.column_witness@,
            ),
    {
        broadcast use vstd::std_specs::btree::group_btree_axioms;

        if self.column_log_sizes.len() == 0 {
            return Ok(());
        }
        let max_log_size = self.max_log_size();
        let no_queries: Vec<usize> = Vec::new();
        let mut below: Option<Vec<(usize, H::Hash)>> = None;
        let mut hash_at: usize = 0;
        let mut column_at: usize = 0;
        let mut value_at: usize = 0;
        let mut layer: u32 = max_log_size;
        let mut done = false;
        while !done
            invariant
                no_queries@.len() == 0,
                self.column_log_sizes.len() != 0,
                max_log_size == spec_max_log_size(self.column_log_sizes@),
                layer <= max_log_size,
                hash_at <= decommitment.hash_witness.len(),
                column_at <= decommitment.column_witness.len(),
                value_at <= queried_values.len(),
                spec_layers::<H>(
                    self.column_log_sizes@,
                    spec_positions(queries_per_log_size@),
                    decommitment.hash_witness@,
                    decommitment.column_witness@,
                    queried_values@,
                    if done {
                        -1
                    } else {
                        layer as int
                    },
                    match below {
                        Some(b) => Some(b@),
                        None => None,
                    },
                    hash_at as nat,
                    column_at as nat,
                    value_at as nat,
                ) == spec_layers::<H>(
                    self.column_log_sizes@,
                    spec_positions(queries_per_log_size@),
                    decommitment.hash_witness@,
                    decommitment.column_witness@,
                    queried_values@,
                    max_log_size as int,
                    None,
                    0,
                    0,
                    0,
                ),
            decreases
                    if done {
                        0
                    } else {
                        layer + 1
                    },
        {
            let n_columns = self.n_columns(layer);
            let layer_queries: &Vec<usize> = match queries_per_log_size.get(&layer) {
                Some(q) => q,
                None => &no_queries,
            };
            assert(layer_queries@ =~= spec_layer_queries(
                spec_positions(queries_per_log_size@),
                layer,
            ));
            let computed = Self::verify_layer(
                &below,
                layer_queries,
                n_columns,
                &decommitment.hash_witness,
                &decommitment.column_witness,
                queried_values,
                hash_at,
                column_at,
                value_at,
            );
            match computed {
                Err(e) => {
                    return Err(e);
                },
                Ok((nodes, h, c, v)) => {
                    below = Some(nodes);
                    hash_at = h;
                    column_at = c;
                    value_at = v;
                },
            }
            if layer == 0 {
                done = true;
            } else {
                layer = layer - 1;
            }
        }
        if hash_at != decommitment.hash_witness.len() {
            return Err(MerkleVerificationError::WitnessTooLong);
        }
        if value_at != queried_values.len() {
            return Err(MerkleVerificationError::TooManyQueriedValues);
        }
        if column_at != decommitment.column_witness.len() {
            return Err(MerkleVerificationError::WitnessTooLong);
        }
        match below {
            Some(nodes) => {
                if nodes.len() == 1 && H::hash_eq(&nodes[0].1, &self.root) {
                    Ok(())
                } else {
                    Err(MerkleVerificationError::RootMismatch)
                }
            },
            None => Err(MerkleVerificationError::RootMismatch),
        }
    }
}

} // verus!
