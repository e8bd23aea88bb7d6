//! The Merkle tree over columns of mixed sizes, and its decommitment at
//! queried positions.

use vstd::prelude::*;
use std::collections::BTreeMap;
use vstd::arithmetic::power2::{lemma2_to64, lemma_pow2_pos, lemma_pow2_unfold, pow2};
use crate::fields::m31::M31;
use crate::utils::{lemma_pow2_monotone, pow2_usize};
use crate::vcs::hasher::MerkleHasher;
use crate::vcs::merkle_verifier::{spec_layer_queries, spec_positions, MerkleDecommitment};

verus! {

/// The columns as sequences.
pub open spec fn spec_columns(columns: Seq<&Vec<M31>>) -> Seq<Seq<M31>> {
    Seq::new(columns.len(), |i: int| columns[i]@)
}

/// The columns of `2^log_size` rows, in their order.
pub open spec fn spec_columns_of_size(columns: Seq<Seq<M31>>, log_size: nat) -> Seq<Seq<M31>>
    decreases columns.len(),
{
    if columns.len() == 0 {
        Seq::empty()
    } else {
        let head = spec_columns_of_size(columns.drop_last(), log_size);
        if columns.last().len() == pow2(log_size) {
            head.push(columns.last())
        } else {
            head
        }
    }
}

/// The values of the columns in the row `i`.
pub open spec fn spec_row(columns: Seq<Seq<M31>>, i: int) -> Seq<M31> {
    Seq::new(columns.len(), |k: int| columns[k][i])
}

/// The hashes of a layer of `2^log_size` nodes: each node hashes its two
/// children in the layer below, if there is one, and its row of the columns
/// of the layer.
pub open spec fn spec_commit_on_layer<H: MerkleHasher>(
    log_size: nat,
    below: Option<Seq<H::Hash>>,
    layer_columns: Seq<Seq<M31>>,
) -> Seq<H::Hash> {
    Seq::new(
        pow2(log_size),
        |i: int|
            H::spec_hash_node(
                match below {
                    Some(b) => Some((b[2 * i], b[2 * i + 1])),
                    None => None,
                },
                spec_row(layer_columns, i),
            ),
    )
}

/// The layer of `2^log_size` nodes of the tree over the columns, the
/// largest of which has `2^max_log_size` rows.
pub open spec fn spec_tree_layer<H: MerkleHasher>(
    columns: Seq<Seq<M31>>,
    max_log_size: nat,
    log_size: nat,
) -> Seq<H::Hash>
    decreases max_log_size - log_size,
{
    spec_commit_on_layer::<H>(
        log_size,
        if log_size >= max_log_size {
            None
        } else {
            Some(spec_tree_layer::<H>(columns, max_log_size, log_size + 1))
        },
        spec_columns_of_size(columns, log_size),
    )
}

/// Whether the length of each column is a power of two, `2^max_log_size` at most.
pub open spec fn spec_columns_fit(columns: Seq<Seq<M31>>, max_log_size: nat) -> bool {
    forall|k: int| 0 <= k < columns.len() ==> spec_column_fits(#[trigger] columns[k], max_log_size)
}

/// Whether the length of the column is a power of two, `2^max_log_size` at most.
pub open spec fn spec_column_fits(column: Seq<M31>, max_log_size: nat) -> bool {
    exists|e: nat| e <= max_log_size && column.len() == #[trigger] pow2(e)
}

/// What a decommitment has read and written on a layer.
pub struct DecommitState<H: MerkleHasher> {
    /// The next node of the layer below.
    pub below_at: nat,
    /// The next query of this layer.
    pub query_at: nat,
    /// The nodes of this layer that were computed.
    pub nodes: Seq<usize>,
    pub queried_values: Seq<M31>,
    pub hash_witness: Seq<H::Hash>,
    pub column_witness: Seq<M31>,
}

/// The next node to decommit: the smaller of the parent of the next node
/// below and the next query of the layer.
pub open spec fn spec_next_decommitment_node(
    below: Seq<usize>,
    below_at: nat,
    layer_queries: Seq<usize>,
    query_at: nat,
) -> Option<usize> {
    if below_at < below.len() {
        let parent = (below[below_at as int] / 2) as usize;
        if query_at < layer_queries.len() && layer_queries[query_at as int] < parent {
            Some(layer_queries[query_at as int])
        } else {
            Some(parent)
        }
    } else if query_at < layer_queries.len() {
        Some(layer_queries[query_at as int])
    } else {
        None
    }
}

/// One node of a layer: the hashes of the children that the verifier will
/// not have computed go to the witness, and the row of the node goes to the
/// queried values if the node was queried and to the witness if not.
pub open spec fn spec_decommit_node<H: MerkleHasher>(
    hashes_below: Option<Seq<H::Hash>>,
    below: Seq<usize>,
    layer_queries: Seq<usize>,
    layer_columns: Seq<Seq<M31>>,
    st: DecommitState<H>,
    node: usize,
) -> DecommitState<H> {
    let (at1, w1) = match hashes_below {
        Some(h) => {
            if st.below_at < below.len() && below[st.below_at as int] == 2 * node {
                (st.below_at + 1, st.hash_witness)
            } else {
                (st.below_at, st.hash_witness.push(h[2 * node]))
            }
        },
        None => (st.below_at, st.hash_witness),
    };
    let (at2, w2) = match hashes_below {
        Some(h) => {
            if at1 < below.len() && below[at1 as int] == 2 * node + 1 {
                (at1 + 1, w1)
            } else {
                (at1, w1.push(h[2 * node + 1]))
            }
        },
        None => (at1, w1),
    };
    let row = spec_row(layer_columns, node as int);
    if st.query_at < layer_queries.len() && layer_queries[st.query_at as int] == node {
        DecommitState {
            below_at: at2,
            query_at: st.query_at + 1,
            nodes: st.nodes.push(node),
            queried_values: st.queried_values + row,
            hash_witness: w2,
            column_witness: st.column_witness,
        }
    } else {
        DecommitState {
            below_at: at2,
            query_at: st.query_at,
            nodes: st.nodes.push(node),
            queried_values: st.queried_values,
            hash_witness: w2,
            column_witness: st.column_witness + row,
        }
    }
}

/// The rest of a layer, from the state `st` on, in at most `fuel` nodes.
pub open spec fn spec_decommit_layer<H: MerkleHasher>(
    hashes_below: Option<Seq<H::Hash>>,
    below: Seq<usize>,
    layer_queries: Seq<usize>,
    layer_columns: Seq<Seq<M31>>,
    st: DecommitState<H>,
    fuel: nat,
) -> DecommitState<H>
    decreases fuel,
{
    match spec_next_decommitment_node(below, st.below_at, layer_queries, st.query_at) {
        None => st,
        Some(node) => {
            if fuel == 0 {
                st
            } else {
                spec_decommit_layer::<H>(
                    hashes_below,
                    below,
                    layer_queries,
                    layer_columns,
                    spec_decommit_node::<H>(
                        hashes_below,
                        below,
                        layer_queries,
                        layer_columns,
                        st,
                        node,
                    ),
                    (fuel - 1) as nat,
                )
            }
        },
    }
}

/// The layers from `layer` down to the root.
pub open spec fn spec_decommit_layers<H: MerkleHasher>(
    columns: Seq<Seq<M31>>,
    max_log_size: nat,
    queries: Map<u32, Seq<usize>>,
    layer: int,
    st: DecommitState<H>,
) -> DecommitState<H>
    decreases layer + 1,
{
    if layer < 0 {
        st
    } else {
        let layer_queries = spec_layer_queries(queries, layer as u32);
        let done = spec_decommit_layer::<H>(
            if layer >= max_log_size {
                None
            } else {
                Some(spec_tree_layer::<H>(columns, max_log_size, (layer + 1) as nat))
            },
            st.nodes,
            layer_queries,
            spec_columns_of_size(columns, layer as nat),
            DecommitState {
                below_at: 0,
                query_at: 0,
                nodes: Seq::empty(),
                queried_values: st.queried_values,
                hash_witness: st.hash_witness,
                column_witness: st.column_witness,
            },
            st.nodes.len() + layer_queries.len(),
        );
        spec_decommit_layers::<H>(
            columns,
            max_log_size,
            queries,
            layer - 1,
            DecommitState {
                below_at: 0,
                query_at: 0,
                nodes: done.nodes,
                queried_values: done.queried_values,
                hash_witness: done.hash_witness,
                column_witness: done.column_witness,
            },
        )
    }
}

/// The state in which a decommitment starts.
pub open spec fn spec_decommit_start<H: MerkleHasher>() -> DecommitState<H> {
    DecommitState {
        below_at: 0,
        query_at: 0,
        nodes: Seq::empty(),
        queried_values: Seq::empty(),
        hash_witness: Seq::empty(),
        column_witness: Seq::empty(),
    }
}

/// Whether each queried position lies in its layer.
pub open spec fn spec_queries_fit(queries: Map<u32, Seq<usize>>, max_log_size: nat) -> bool {
    forall|l: u32, i: int|
        l <= max_log_size && queries.contains_key(l) && 0 <= i < queries[l].len() ==> (
        #[trigger] queries[l][i]) < pow2(l as nat)
}

/// A Merkle tree over columns, by its layers from the root down.
pub struct MerkleProver<H: MerkleHasher> {
    /// The hashes of the layers; the layer `k` has `2^k` nodes.
    pub layers: Vec<Vec<H::Hash>>,
}

/// The columns of `2^log_size` rows, in their order.
fn columns_of_size<'a>(columns: &Vec<&'a Vec<M31>>, log_size: u32) -> (r: Vec<&'a Vec<M31>>)
    requires
        log_size < usize::BITS,
    ensures
        spec_columns(r@) == spec_columns_of_size(spec_columns(columns@), log_size as nat),
        forall|k: int| 0 <= k < r.len() ==> (#[trigger] r[k]).len() == pow2(log_size as nat),
{
    let size = pow2_usize(log_size);
    let mut out: Vec<&'a Vec<M31>> = Vec::new();
    let mut i: usize = 0;
    proof {
        assert(spec_columns(out@) =~= Seq::<Seq<M31>>::empty());
        assert(spec_columns(columns@).subrange(0, 0) =~= Seq::<Seq<M31>>::empty());
    }
    while i < columns.len()
        invariant
            i <= columns.len(),
            size == pow2(log_size as nat),
            spec_columns(out@) == spec_columns_of_size(
                spec_columns(columns@).subrange(0, i as int),
                log_size as nat,
            ),
            forall|k: int| 0 <= k < out.len() ==> (#[trigger] out[k]).len() == size,
        decreases columns.len() - i,
    {
        proof {
            let s = spec_columns(columns@).subrange(0, i + 1);
            assert(s.drop_last() =~= spec_columns(columns@).subrange(0, i as int));
            assert(s.last() == columns[i as int]@);
        }
        let ghost before = spec_columns(out@);
        if columns[i].len() == size {
            out.push(columns[i]);
            proof {
                assert(spec_columns(out@) =~= before.push(columns[i as int]@));
            }
        }
        i = i + 1;
    }
    proof {
        assert(spec_columns(columns@).subrange(0, columns.len() as int) =~= spec_columns(
            columns@,
        ));
    }
    out
}

/// The values of the columns in the row `i`.
fn row_of(columns: &Vec<&Vec<M31>>, i: usize) -> (r: Vec<M31>)
    requires
        forall|k: int| 0 <= k < columns.len() ==> i < (#[trigger] columns[k]).len(),
    ensures
        r@ == spec_row(spec_columns(columns@), i as int),
{
    let mut out: Vec<M31> = Vec::with_capacity(columns.len());
    let mut k: usize = 0;
    while k < columns.len()
        invariant
            k <= columns.len(),
            forall|c: int| 0 <= c < columns.len() ==> i < (#[trigger] columns[c]).len(),
            out.len() == k,
            forall|c: int| 0 <= c < k ==> out[c] == columns[c]@[i as int],
        decreases columns.len() - k,
    {
        let column = columns[k];
        out.push(column[i]);
        k = k + 1;
    }
    proof {
        assert(out@ =~= spec_row(spec_columns(columns@), i as int));
    }
    out
}

/// The hashes of a layer of `2^log_size` nodes.
pub fn commit_on_layer<H: MerkleHasher>(
    log_size: u32,
    prev_layer: Option<&Vec<H::Hash>>,
    columns: &Vec<&Vec<M31>>,
) -> (r: Vec<H::Hash>)
    requires
        log_size + 1 < usize::BITS,
        match prev_layer {
            Some(p) => p.len() == pow2((log_size + 1) as nat),
            None => true,
        },
        forall|k: int| 0 <= k < columns.len() ==> (#[trigger] columns[k]).len() == pow2(
            log_size as nat,
        ),
    ensures
        r@ == spec_commit_on_layer::<H>(
            log_size as nat,
            match prev_layer {
                Some(p) => Some(p@),
                None => None,
            },
            spec_columns(columns@),
        ),
        r.len() == pow2(log_size as nat),
{
    let n = pow2_usize(log_size);
    proof {
        lemma_pow2_unfold((log_size + 1) as nat);
    }
    let ghost below: Option<Seq<H::Hash>> = match prev_layer {
        Some(p) => Some(p@),
        None => None,
    };
    let mut out: Vec<H::Hash> = Vec::with_capacity(n);
    let mut i: usize = 0;
    while i < n
        invariant
            i <= n,
            n == pow2(log_size as nat),
            below == (match prev_layer {
                Some(p) => Some(p@),
                None => None,
            }),
            match prev_layer {
                Some(p) => p.len() == 2 * n,
                None => true,
            },
            forall|k: int| 0 <= k < columns.len() ==> (#[trigger] columns[k]).len() == n,
            out.len() == i,
            forall|k: int|
                0 <= k < i ==> out[k] == spec_commit_on_layer::<H>(
                    log_size as nat,
                    below,
                    spec_columns(columns@),
                )[k],
        decreases n - i,
    {
        let children = match prev_layer {
            Some(p) => Some((p[2 * i], p[2 * i + 1])),
            None => None,
        };
        let row = row_of(columns, i);
        out.push(H::hash_node(children, &row));
        i = i + 1;
    }
    proof {
        assert(out@ =~= spec_commit_on_layer::<H>(
            log_size as nat,
            below,
            spec_columns(columns@),
        ));
    }
    out
}

impl<H: MerkleHasher> MerkleProver<H> {
    /// The logarithm of the size of the largest layer.
    pub open spec fn spec_max_log_size(self) -> nat {
        (self.layers.len() - 1) as nat
    }

    /// The layers are those of the tree over `columns`.
    pub open spec fn spec_commits_to(self, columns: Seq<Seq<M31>>) -> bool {
        &&& 1 <= self.layers.len() <= 31
        &&& spec_columns_fit(columns, self.spec_max_log_size())
        &&& forall|l: int|
            0 <= l < self.layers.len() ==> (#[trigger] self.layers[l])@ == spec_tree_layer::<H>(
                columns,
                self.spec_max_log_size(),
                l as nat,
            )
    }

    /// The tree over the columns, the largest of which has `2^max_log_size`
    /// rows: each column lives on the layer of its size.
    pub fn commit(columns: &Vec<&Vec<M31>>, max_log_size: u32) -> (r: MerkleProver<H>)
        requires
            max_log_size <= 30,
            spec_columns_fit(spec_columns(columns@), max_log_size as nat),
        ensures
            r.layers.len() == max_log_size + 1,
            r.spec_commits_to(spec_columns(columns@)),
    {
        let ghost cols = spec_columns(columns@);
        let mut reversed: Vec<Vec<H::Hash>> = Vec::new();
        let mut log_size: u32 = max_log_size;
        let mut done = false;
        while !done
            invariant
                max_log_size <= 30,
                log_size <= max_log_size,
                cols == spec_columns(columns@),
                done ==> log_size == 0,
                reversed.len() == (if done {
                    max_log_size + 1
                } else {
                    max_log_size - log_size
                }),
                forall|k: int|
                    0 <= k < reversed.len() ==> (#[trigger] reversed[k])@ == spec_tree_layer::<H>(
                        cols,
                        max_log_size as nat,
                        (max_log_size - k) as nat,
                    ) && reversed[k].len() == pow2((max_log_size - k) as nat),
            decreases
                    if done {
                        0
                    } else {
                        log_size + 1
                    },
        {
            let layer_columns = columns_of_size(columns, log_size);
            let layer = if reversed.len() == 0 {
                commit_on_layer::<H>(log_size, None, &layer_columns)
            } else {
                commit_on_layer::<H>(
                    log_size,
                    Some(&reversed[reversed.len() - 1]),
                    &layer_columns,
                )
            };
            reversed.push(layer);
            if log_size == 0 {
                done = true;
            } else {
                log_size = log_size - 1;
            }
        }
        let mut layers: Vec<Vec<H::Hash>> = Vec::with_capacity(reversed.len());
        let ghost all = reversed@;
        while reversed.len() > 0
            invariant
                all.len() == max_log_size + 1,
                reversed.len() + layers.len() == all.len(),
                forall|k: int| 0 <= k < reversed.len() ==> reversed[k] == all[k],
                forall|k: int| 0 <= k < layers.len() ==> layers[k] == all[all.len() - 1 - k],
            decreases reversed.len(),
        {
            let layer = reversed.pop().unwrap();
            layers.push(layer);
        }
        MerkleProver { layers }
    }

    /// The root of the tree.
    pub fn root(&self) -> (r: H::Hash)
        requires
            self.layers.len() >= 1,
            self.layers[0].len() >= 1,
        ensures
            r == self.layers[0][0],
    {
        self.layers[0][0]
    }

    /// The values at the queried positions, and what the verifier needs in
    /// addition to recompute the root from them.
    pub fn decommit(
        &self,
        queries_per_log_size: &BTreeMap<u32, Vec<usize>>,
        columns: &Vec<&Vec<M31>>,
    ) -> (r: (Vec<M31>, MerkleDecommitment<H>))
        requires
            self.spec_commits_to(spec_columns(columns@)),
            spec_queries_fit(spec_positions(queries_per_log_size@), self.spec_max_log_size()),
        ensures
            ({
                let st = spec_decommit_layers::<H>(
                    spec_columns(columns@),
                    self.spec_max_log_size(),
                    spec_positions(queries_per_log_size@),
                    self.spec_max_log_size() as int,
                    spec_decommit_start::<H>(),
                );
                &&& r.0@ == st.queried_values
                &&& r.1.hash_witness@ == st.hash_witness
                &&& r.1.column_witness@ == st.column_witness
            }),
    {
        broadcast use vstd::std_specs::btree::group_btree_axioms;

        let ghost cols = spec_columns(columns@);
        let ghost queries = spec_positions(queries_per_log_size@);
        let max_log_size: u32 = (self.layers.len() - 1) as u32;
        let no_queries: Vec<usize> = Vec::new();
        let mut queried_values: Vec<M31> = Vec::new();
        let mut hash_witness: Vec<H::Hash> = Vec::new();
        let mut column_witness: Vec<M31> = Vec::new();
        let mut below: Vec<usize> = Vec::new();
        let mut layer: u32 = max_log_size;
        let mut done = false;
        while !done
            invariant
                self.spec_commits_to(cols),
                cols == spec_columns(columns@),
                queries == spec_positions(queries_per_log_size@),
                spec_queries_fit(queries, self.spec_max_log_size()),
                max_log_size == self.spec_max_log_size(),
                layer <= max_log_size,
                no_queries@.len() == 0,
                !done ==> forall|k: int|
                    0 <= k < below.len() ==> (#[trigger] below[k]) < pow2((layer + 1) as nat),
                !done && layer == max_log_size ==> below.len() == 0,
                spec_decommit_layers::<H>(
                    cols,
                    max_log_size as nat,
                    queries,
                    if done {
                        -1
                    } else {
                        layer as int
                    },
                    DecommitState {
                        below_at: 0,
                        query_at: 0,
                        nodes: below@,
                        queried_values: queried_values@,
                        hash_witness: hash_witness@,
                        column_witness: column_witness@,
                    },
                ) == spec_decommit_layers::<H>(
                    cols,
                    max_log_size as nat,
                    queries,
                    max_log_size as int,
                    spec_decommit_start::<H>(),
                ),
            decreases
                    if done {
                        0
                    } else {
                        layer + 1
                    },
        {
            let layer_columns = columns_of_size(columns, layer);
            let layer_queries: &Vec<usize> = match queries_per_log_size.get(&layer) {
                Some(q) => q,
                None => &no_queries,
            };
            assert(layer_queries@ =~= spec_layer_queries(queries, layer));
            proof {
                assert forall|i: int| 0 <= i < layer_queries.len() implies layer_queries[i] < pow2(
                    layer as nat,
                ) by {
                    if queries.contains_key(layer) {
                        assert(queries[layer][i] < pow2(layer as nat));
                    }
                }
                lemma_pow2_unfold((layer + 1) as nat);
            }
            let has_below = layer < max_log_size;
            let ghost hashes_below: Option<Seq<H::Hash>> = if has_below {
                Some(spec_tree_layer::<H>(cols, max_log_size as nat, (layer + 1) as nat))
            } else {
                None
            };
            let ghost layer_cols = spec_columns(layer_columns@);
            let ghost start = DecommitState::<H> {
                below_at: 0,
                query_at: 0,
                nodes: Seq::empty(),
                queried_values: queried_values@,
                hash_witness: hash_witness@,
                column_witness: column_witness@,
            };
            let ghost total_fuel = below@.len() + layer_queries@.len();
            let ghost mut fuel: nat = total_fuel;
            proof {
                lemma_pow2_monotone(layer as nat, 30);
                lemma2_to64();
            }
            let mut nodes: Vec<usize> = Vec::new();
            let mut below_at: usize = 0;
            let mut query_at: usize = 0;
            loop
                invariant
                    self.spec_commits_to(cols),
                    max_log_size == self.spec_max_log_size(),
                    layer <= max_log_size,
                    has_below == (layer < max_log_size),
                    !has_below ==> below.len() == 0,
                    hashes_below == (if has_below {
                        Some(spec_tree_layer::<H>(cols, max_log_size as nat, (layer + 1) as nat))
                    } else {
                        None::<Seq<H::Hash>>
                    }),
                    layer_cols == spec_columns(layer_columns@),
                    forall|k: int|
                        0 <= k < layer_columns.len() ==> (#[trigger] layer_columns[k]).len()
                            == pow2(layer as nat),
                    forall|k: int| 0 <= k < below.len() ==> (#[trigger] below[k]) < 2 * pow2(
                        layer as nat,
                    ),
                    forall|i: int|
                        0 <= i < layer_queries.len() ==> layer_queries[i] < pow2(layer as nat),
                    forall|k: int| 0 <= k < nodes.len() ==> (#[trigger] nodes[k]) < pow2(
                        layer as nat,
                    ),
                    below_at <= below.len(),
                    query_at <= layer_queries.len(),
                    total_fuel == below@.len() + layer_queries@.len(),
                    fuel >= below.len() - below_at + layer_queries.len() - query_at,
                    pow2(layer as nat) <= 0x4000_0000,
                    spec_decommit_layer::<H>(
                        hashes_below,
                        below@,
                        layer_queries@,
                        layer_cols,
                        DecommitState {
                            below_at: below_at as nat,
                            query_at: query_at as nat,
                            nodes: nodes@,
                            queried_values: queried_values@,
                            hash_witness: hash_witness@,
                            column_witness: column_witness@,
                        },
                        fuel,
                    ) == spec_decommit_layer::<H>(
                        hashes_below,
                        below@,
                        layer_queries@,
                        layer_cols,
                        start,
                        total_fuel,
                    ),
                ensures
                    below_at == below.len(),
                    query_at == layer_queries.len(),
                decreases below.len() - below_at + layer_queries.len() - query_at,
            {
                let node: usize = if below_at < below.len() {
                    let parent = below[below_at] / 2;
                    if query_at < layer_queries.len() && layer_queries[query_at] < parent {
                        layer_queries[query_at]
                    } else {
                        parent
                    }
                } else if query_at < layer_queries.len() {
                    layer_queries[query_at]
                } else {
                    break;
                };
                assert(node < pow2(layer as nat)) by {
                    if below_at < below.len() {
                        assert(below[below_at as int] < 2 * pow2(layer as nat));
                    }
                }
                let ghost below_before = below_at;
                if has_below {
                    let hashes = &self.layers[(layer + 1) as usize];
                    assert(hashes@ == spec_tree_layer::<H>(
                        cols,
                        max_log_size as nat,
                        (layer + 1) as nat,
                    ));
                    assert(hashes.len() == 2 * pow2(layer as nat)) by {
                        lemma_pow2_unfold((layer + 1) as nat);
                    }
                    if below_at < below.len() && below[below_at] == 2 * node {
                        below_at = below_at + 1;
                    } else {
                        hash_witness.push(hashes[2 * node]);
                    }
                    if below_at < below.len() && below[below_at] == 2 * node + 1 {
                        below_at = below_at + 1;
                    } else {
                        hash_witness.push(hashes[2 * node + 1]);
                    }
                }
                let row = row_of(&layer_columns, node);
                let ghost values_before = queried_values@;
                let ghost witness_before = column_witness@;
                if query_at < layer_queries.len() && layer_queries[query_at] == node {
                    query_at = query_at + 1;
                    let mut k: usize = 0;
                    while k < row.len()
                        invariant
                            k <= row.len(),
                            queried_values@ == values_before + row@.subrange(0, k as int),
                        decreases row.len() - k,
                    {
                        queried_values.push(row[k]);
                        proof {
                            assert(queried_values@ =~= values_before + row@.subrange(0, k + 1));
                        }
                        k = k + 1;
                    }
                    proof {
                        assert(row@.subrange(0, row.len() as int) =~= row@);
                    }
                } else {
                    let mut k: usize = 0;
                    while k < row.len()
                        invariant
                            k <= row.len(),
                            column_witness@ == witness_before + row@.subrange(0, k as int),
                        decreases row.len() - k,
                    {
                        column_witness.push(row[k]);
                        proof {
                            assert(column_witness@ =~= witness_before + row@.subrange(0, k + 1));
                        }
                        k = k + 1;
                    }
                    proof {
                        assert(row@.subrange(0, row.len() as int) =~= row@);
                    }
                }
                nodes.push(node);
                proof {
                    fuel = (fuel - 1) as nat;
                }
            }
            proof {
                let end = DecommitState::<H> {
                    below_at: below_at as nat,
                    query_at: query_at as nat,
                    nodes: nodes@,
                    queried_values: queried_values@,
                    hash_witness: hash_witness@,
                    column_witness: column_witness@,
                };
                assert(spec_decommit_layer::<H>(
                    hashes_below,
                    below@,
                    layer_queries@,
                    layer_cols,
                    end,
                    fuel,
                ) == end);
            }
            below = nodes;
            if layer == 0 {
                done = true;
            } else {
                layer = layer - 1;
            }
        }
        (queried_values, MerkleDecommitment { hash_witness, column_witness })
    }
}

} // verus!
