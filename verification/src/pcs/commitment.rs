//! The verifier's side of the commitment scheme: it reads the commitments
//! to the trees of columns and checks the samples against them.

use vstd::prelude::*;
use std::collections::BTreeMap;
use crate::channel::{spec_pow_holds, Channel, MerkleChannel};
use crate::circle::secure_point::SecureCirclePoint;
use crate::fields::m31::M31;
use crate::fields::qm31::QM31;
use crate::fri::config::{CirclePolyDegreeBound, FriVerificationError};
use crate::air::component::spec_points_view;
use crate::fri::verification::{
    spec_commit, spec_decommit_stage, spec_query_positions, FriVerifier,
};
use crate::queries::spec_generate;
use crate::pcs::quotients::{
    spec_answer,
    fri_answers_for_log_size, spec_is_answer, spec_row_lacks, spec_samples_view,
    CommitmentSchemeProof, PcsConfig, PointSample,
};
use crate::vcs::hasher::MerkleHasher;
use crate::vcs::merkle_verifier::{spec_positions, spec_verify, MerkleVerifier};
use crate::verification::VerificationError;

verus! {

/// All the values, tree by tree and column by column, of the first `n` trees.
pub open spec fn spec_flatten_cols(trees: Seq<Vec<Vec<QM31>>>, n: nat) -> Seq<QM31>
    decreases n,
{
    if n == 0 {
        Seq::empty()
    } else {
        spec_flatten_cols(trees, (n - 1) as nat) + spec_flatten_tree(
            trees[n - 1]@,
            trees[n - 1].len() as nat,
        )
    }
}

/// All the values of the first `n` columns of a tree.
pub open spec fn spec_flatten_tree(columns: Seq<Vec<QM31>>, n: nat) -> Seq<QM31>
    decreases n,
{
    if n == 0 {
        Seq::empty()
    } else {
        spec_flatten_tree(columns, (n - 1) as nat) + columns[n - 1]@
    }
}

/// The sizes in descending order with `v` put in its place, unless it is there already.
pub open spec fn spec_insert_descending(sizes: Seq<u32>, v: u32) -> Seq<u32>
    decreases sizes.len(),
{
    if sizes.len() == 0 {
        seq![v]
    } else if sizes.last() > v {
        sizes.push(v)
    } else if sizes.last() == v {
        sizes
    } else {
        spec_insert_descending(sizes.drop_last(), v).push(sizes.last())
    }
}

/// The different sizes among the first `n` of a list, in descending order.
pub open spec fn spec_distinct_descending(sizes: Seq<u32>, n: nat) -> Seq<u32>
    decreases n,
{
    if n == 0 {
        Seq::empty()
    } else {
        spec_insert_descending(spec_distinct_descending(sizes, (n - 1) as nat), sizes[n - 1])
    }
}

/// The sizes of the columns of the first `n` trees, one tree after the other.
pub open spec fn spec_all_log_sizes<H: MerkleHasher>(trees: Seq<MerkleVerifier<H>>, n: nat) -> Seq<u32>
    decreases n,
{
    if n == 0 {
        Seq::empty()
    } else {
        spec_all_log_sizes(trees, (n - 1) as nat) + trees[n - 1].column_log_sizes@
    }
}

/// Puts `v` in its place among the sizes in descending order, unless it is there already.
fn insert_descending(sizes: &mut Vec<u32>, v: u32)
    ensures
        final(sizes)@ == spec_insert_descending(old(sizes)@, v),
    decreases old(sizes).len(),
{
    let n = sizes.len();
    if n == 0 {
        sizes.push(v);
    } else {
        let last = sizes[n - 1];
        if last > v {
            sizes.push(v);
        } else if last == v {
        } else {
            let ghost before = sizes@;
            sizes.pop();
            assert(sizes@ =~= before.drop_last());
            insert_descending(sizes, v);
            sizes.push(last);
        }
    }
}

/// The verifier of the commitment scheme: the trees that were committed so far.
pub struct CommitmentSchemeVerifier<MC: MerkleChannel> {
    pub trees: Vec<MerkleVerifier<MC::H>>,
    pub config: PcsConfig,
}

impl<MC: MerkleChannel> CommitmentSchemeVerifier<MC> {
    pub fn new(config: PcsConfig) -> (r: CommitmentSchemeVerifier<MC>)
        ensures
            r.trees.len() == 0,
            r.config == config,
    {
        CommitmentSchemeVerifier { trees: Vec::new(), config }
    }

    /// The sizes of the columns of each tree.
    pub fn column_log_sizes(&self) -> (r: Vec<Vec<u32>>)
        ensures
            r.len() == self.trees.len(),
            forall|t: int| 0 <= t < r.len() ==> (#[trigger] r[t])@ == self.trees[t].column_log_sizes@,
    {
        let mut out: Vec<Vec<u32>> = Vec::with_capacity(self.trees.len());
        let mut t: usize = 0;
        while t < self.trees.len()
            invariant
                t <= self.trees.len(),
                out.len() == t,
                forall|k: int|
                    0 <= k < t ==> (#[trigger] out[k])@ == self.trees[k].column_log_sizes@,
            decreases self.trees.len() - t,
        {
            out.push(crate::utils::copy_vec(&self.trees[t].column_log_sizes));
            t = t + 1;
        }
        out
    }

    /// Reads the commitment to a tree of columns of the given sizes: the
    /// root is absorbed, and the tree is that of the columns on their
    /// blown-up domains.
    pub fn commit(
        &mut self,
        commitment: <MC::H as MerkleHasher>::Hash,
        log_sizes: &Vec<u32>,
        channel: &mut MC::C,
    )
        requires
            forall|i: int|
                0 <= i < log_sizes.len() ==> log_sizes[i]
                    + old(self).config.fri_config.log_blowup_factor <= u32::MAX,
        ensures
            *final(channel) == MC::spec_mix_root(*old(channel), commitment),
            final(self).config == old(self).config,
            final(self).trees.len() == old(self).trees.len() + 1,
            forall|t: int| 0 <= t < old(self).trees.len() ==> final(self).trees[t] == old(self).trees[t],
            final(self).trees[old(self).trees.len() as int].root == commitment,
            final(self).trees[old(self).trees.len() as int].column_log_sizes@ == Seq::new(
                log_sizes.len() as nat,
                |i: int| (log_sizes[i] + old(self).config.fri_config.log_blowup_factor) as u32,
            ),
    {
        MC::mix_root(channel, commitment);
        let blowup = self.config.fri_config.log_blowup_factor;
        let mut extended_log_sizes: Vec<u32> = Vec::with_capacity(log_sizes.len());
        let mut i: usize = 0;
        while i < log_sizes.len()
            invariant
                i <= log_sizes.len(),
                forall|k: int| 0 <= k < log_sizes.len() ==> log_sizes[k] + blowup <= u32::MAX,
                extended_log_sizes.len() == i,
                forall|k: int| 0 <= k < i ==> extended_log_sizes[k] == log_sizes[k] + blowup,
            decreases log_sizes.len() - i,
        {
            extended_log_sizes.push(log_sizes[i] + blowup);
            i = i + 1;
        }
        proof {
            assert(extended_log_sizes@ =~= Seq::new(
                log_sizes.len() as nat,
                |i: int| (log_sizes[i] + blowup) as u32,
            ));
        }
        let tree = MerkleVerifier::<MC::H>::new(commitment, extended_log_sizes);
        self.trees.push(tree);
    }

    /// The different sizes of the columns of all the trees, in descending order.
    pub fn distinct_log_sizes(&self) -> (r: Vec<u32>)
        ensures
            r@ == spec_distinct_descending(
                spec_all_log_sizes(self.trees@, self.trees.len() as nat),
                spec_all_log_sizes(self.trees@, self.trees.len() as nat).len(),
            ),
    {
        let mut out: Vec<u32> = Vec::new();
        let ghost mut seen: Seq<u32> = Seq::empty();
        let mut t: usize = 0;
        while t < self.trees.len()
            invariant
                t <= self.trees.len(),
                seen == spec_all_log_sizes(self.trees@, t as nat),
                out@ == spec_distinct_descending(seen, seen.len()),
            decreases self.trees.len() - t,
        {
            let sizes = &self.trees[t].column_log_sizes;
            let ghost before = seen;
            let mut c: usize = 0;
            while c < sizes.len()
                invariant
                    c <= sizes.len(),
                    seen == before + sizes@.subrange(0, c as int),
                    out@ == spec_distinct_descending(seen, seen.len()),
                decreases sizes.len() - c,
            {
                let ghost old_seen = seen;
                proof {
                    seen = seen.push(sizes[c as int]);
                    assert(seen =~= before + sizes@.subrange(0, c + 1));
                    lemma_distinct_prefix(seen, old_seen.len());
                    assert(seen.subrange(0, old_seen.len() as int) =~= old_seen);
                }
                insert_descending(&mut out, sizes[c]);
                c = c + 1;
            }
            proof {
                assert(sizes@.subrange(0, sizes.len() as int) =~= sizes@);
            }
            t = t + 1;
        }
        out
    }
}

/// The distinct sizes among the first `n` depend on the first `n` alone.
pub proof fn lemma_distinct_prefix(sizes: Seq<u32>, n: nat)
    requires
        n <= sizes.len(),
    ensures
        spec_distinct_descending(sizes, n) == spec_distinct_descending(
            sizes.subrange(0, n as int),
            n,
        ),
    decreases n,
{
    if n > 0 {
        lemma_distinct_prefix(sizes, (n - 1) as nat);
        lemma_distinct_prefix(sizes.subrange(0, n as int), (n - 1) as nat);
        assert(sizes.subrange(0, n as int).subrange(0, n - 1) =~= sizes.subrange(0, n - 1));
    }
}

} // verus!

verus! {

/// The query positions of a column size that the sizes hold.
pub proof fn lemma_query_positions_lookup(
    queries: Seq<usize>,
    log_domain_size: nat,
    sizes: Seq<u32>,
    s: u32,
)
    requires
        sizes.contains(s),
    ensures
        crate::fri::verification::spec_query_positions(
            queries,
            log_domain_size,
            sizes,
        ).contains_key(s),
        crate::fri::verification::spec_query_positions(queries, log_domain_size, sizes)[s]
            == crate::queries::spec_fold_positions(queries, (log_domain_size - s) as nat),
    decreases sizes.len(),
{
    if sizes.len() > 0 {
        if sizes.last() != s {
            let k = choose|k: int| 0 <= k < sizes.len() && sizes[k] == s;
            assert(sizes.drop_last()[k] == s);
            lemma_query_positions_lookup(queries, log_domain_size, sizes.drop_last(), s);
        }
    }
}

/// The sizes of the columns of each tree, as sequences.
pub open spec fn spec_sizes_view(sizes: Seq<Vec<u32>>) -> Seq<Seq<u32>> {
    Seq::new(sizes.len(), |t: int| sizes[t]@)
}

/// The samples of each column of each tree, as sequences.
pub open spec fn spec_samples_by_tree(samples: Seq<Vec<Vec<PointSample>>>) -> Seq<Seq<Seq<PointSample>>> {
    Seq::new(samples.len(), |t: int| Seq::new(samples[t].len() as nat, |c: int| samples[t][c]@))
}

/// Whether there is one answer for each query of the column size.
pub open spec fn spec_answers_fit(
    query_positions: Map<u32, Seq<usize>>,
    log_size: u32,
    answers: Seq<QM31>,
) -> bool {
    &&& 1 <= log_size <= 30
    &&& query_positions.contains_key(log_size)
    &&& answers.len() == query_positions[log_size].len()
}

/// How many of the first `n` columns of a tree have the size.
pub open spec fn spec_tree_count(sizes: Seq<u32>, log_size: u32, n: nat) -> nat
    decreases n,
{
    if n == 0 {
        0
    } else {
        spec_tree_count(sizes, log_size, (n - 1) as nat) + if sizes[n - 1] == log_size {
            1nat
        } else {
            0nat
        }
    }
}

/// The samples of those of the first `n` columns of a tree that have the
/// size, in their order.
pub open spec fn spec_tree_group(
    sizes: Seq<u32>,
    samples: Seq<Seq<PointSample>>,
    log_size: u32,
    n: nat,
) -> Seq<Seq<PointSample>>
    decreases n,
{
    if n == 0 {
        Seq::empty()
    } else {
        let rest = spec_tree_group(sizes, samples, log_size, (n - 1) as nat);
        if sizes[n - 1] == log_size {
            rest.push(samples[n - 1])
        } else {
            rest
        }
    }
}

/// The samples of the columns of the size in the first `trees` trees, tree
/// by tree.
pub open spec fn spec_size_group(
    column_log_sizes: Seq<Seq<u32>>,
    samples: Seq<Seq<Seq<PointSample>>>,
    log_size: u32,
    trees: nat,
) -> Seq<Seq<PointSample>>
    decreases trees,
{
    if trees == 0 {
        Seq::empty()
    } else {
        let t = trees - 1;
        spec_size_group(column_log_sizes, samples, log_size, t as nat) + spec_tree_group(
            column_log_sizes[t],
            samples[t],
            log_size,
            column_log_sizes[t].len(),
        )
    }
}

/// For each tree, how many of its columns have the size.
pub open spec fn spec_size_counts(column_log_sizes: Seq<Seq<u32>>, log_size: u32) -> Seq<usize> {
    Seq::new(
        column_log_sizes.len(),
        |t: int|
            spec_tree_count(column_log_sizes[t], log_size, column_log_sizes[t].len()) as usize,
    )
}

/// For each tree, how many of its values were read before the `i`-th size:
/// for every size before it, one value for each query and each column of
/// that size.
pub open spec fn spec_cursors(
    column_log_sizes: Seq<Seq<u32>>,
    positions: Map<u32, Seq<usize>>,
    distinct_sizes: Seq<u32>,
    i: nat,
) -> Seq<usize>
    decreases i,
{
    if i == 0 {
        Seq::new(column_log_sizes.len(), |t: int| 0usize)
    } else {
        let before = spec_cursors(column_log_sizes, positions, distinct_sizes, (i - 1) as nat);
        let size = distinct_sizes[i - 1];
        let counts = spec_size_counts(column_log_sizes, size);
        Seq::new(
            column_log_sizes.len(),
            |t: int| (before[t] + positions[size].len() * counts[t]) as usize,
        )
    }
}

/// Whether the answers of the `i`-th size cannot be computed: the size is
/// out of range, it has no queries, or the row of one of its queries lacks
/// values.
pub open spec fn spec_size_fails(
    column_log_sizes: Seq<Seq<u32>>,
    samples: Seq<Seq<Seq<PointSample>>>,
    positions: Map<u32, Seq<usize>>,
    queried_values: Seq<Vec<M31>>,
    distinct_sizes: Seq<u32>,
    i: int,
) -> bool {
    let size = distinct_sizes[i];
    size < 1 || size > 30 || !positions.contains_key(size) || spec_some_row_lacks(
        queried_values,
        spec_cursors(column_log_sizes, positions, distinct_sizes, i as nat),
        spec_size_counts(column_log_sizes, size),
        spec_size_group(column_log_sizes, samples, size, column_log_sizes.len()).len(),
        positions[size].len() as nat,
    )
}

/// Whether the row of one of the first `n` queries lacks values.
pub open spec fn spec_some_row_lacks(
    queried_values: Seq<Vec<M31>>,
    at: Seq<usize>,
    n_columns: Seq<usize>,
    n_samples: nat,
    n: nat,
) -> bool {
    exists|q: int| 0 <= q < n && #[trigger] spec_row_lacks(queried_values, at, n_columns, n_samples, q)
}

/// Whether `answers` holds the quotients at the queries of the `i`-th
/// size.
pub open spec fn spec_size_answered(
    column_log_sizes: Seq<Seq<u32>>,
    samples: Seq<Seq<Seq<PointSample>>>,
    random_coeff: QM31,
    positions: Map<u32, Seq<usize>>,
    queried_values: Seq<Vec<M31>>,
    distinct_sizes: Seq<u32>,
    i: int,
    answers: Seq<QM31>,
) -> bool {
    let size = distinct_sizes[i];
    &&& spec_answers_fit(positions, size, answers)
    &&& forall|q: int|
        0 <= q < positions[size].len() ==> spec_is_answer(
            size,
            spec_size_group(column_log_sizes, samples, size, column_log_sizes.len()),
            random_coeff,
            positions[size][q],
            queried_values,
            spec_cursors(column_log_sizes, positions, distinct_sizes, i as nat),
            spec_size_counts(column_log_sizes, size),
            q,
            #[trigger] answers[q],
        )
}

/// The quotients at the queries of the `i`-th size.
pub open spec fn spec_size_answers(
    column_log_sizes: Seq<Seq<u32>>,
    samples: Seq<Seq<Seq<PointSample>>>,
    random_coeff: QM31,
    positions: Map<u32, Seq<usize>>,
    queried_values: Seq<Vec<M31>>,
    distinct_sizes: Seq<u32>,
    i: int,
) -> Seq<QM31> {
    let size = distinct_sizes[i];
    Seq::new(
        positions[size].len(),
        |q: int|
            spec_answer(
                size,
                spec_size_group(column_log_sizes, samples, size, column_log_sizes.len()),
                random_coeff,
                positions[size][q],
                queried_values,
                spec_cursors(column_log_sizes, positions, distinct_sizes, i as nat),
                spec_size_counts(column_log_sizes, size),
                q,
            ),
    )
}

/// Whether the answers of one of the sizes cannot be computed.
pub open spec fn spec_some_size_fails(
    column_log_sizes: Seq<Seq<u32>>,
    samples: Seq<Seq<Seq<PointSample>>>,
    positions: Map<u32, Seq<usize>>,
    queried_values: Seq<Vec<M31>>,
    distinct_sizes: Seq<u32>,
) -> bool {
    exists|i: int|
        0 <= i < distinct_sizes.len() && #[trigger] spec_size_fails(
            column_log_sizes,
            samples,
            positions,
            queried_values,
            distinct_sizes,
            i,
        )
}

/// The quotients at the queries of the columns of each size, and nothing
/// where those of one of the sizes cannot be computed.
pub open spec fn spec_fri_answers(
    column_log_sizes: Seq<Seq<u32>>,
    samples: Seq<Seq<Seq<PointSample>>>,
    random_coeff: QM31,
    positions: Map<u32, Seq<usize>>,
    queried_values: Seq<Vec<M31>>,
    distinct_sizes: Seq<u32>,
) -> Option<Seq<Seq<QM31>>> {
    if spec_some_size_fails(column_log_sizes, samples, positions, queried_values, distinct_sizes) {
        None
    } else {
        Some(
            Seq::new(
                distinct_sizes.len(),
                |i: int|
                    spec_size_answers(
                        column_log_sizes,
                        samples,
                        random_coeff,
                        positions,
                        queried_values,
                        distinct_sizes,
                        i,
                    ),
            ),
        )
    }
}

/// Answers that hold the quotients at the queries of a size are the
/// quotients of the size, and the size does not fail.
pub proof fn lemma_size_answered(
    column_log_sizes: Seq<Seq<u32>>,
    samples: Seq<Seq<Seq<PointSample>>>,
    random_coeff: QM31,
    positions: Map<u32, Seq<usize>>,
    queried_values: Seq<Vec<M31>>,
    distinct_sizes: Seq<u32>,
    i: int,
    answers: Seq<QM31>,
)
    requires
        spec_size_answered(
            column_log_sizes,
            samples,
            random_coeff,
            positions,
            queried_values,
            distinct_sizes,
            i,
            answers,
        ),
    ensures
        answers == spec_size_answers(
            column_log_sizes,
            samples,
            random_coeff,
            positions,
            queried_values,
            distinct_sizes,
            i,
        ),
        !spec_size_fails(column_log_sizes, samples, positions, queried_values, distinct_sizes, i),
{
    let size = distinct_sizes[i];
    let at = spec_cursors(column_log_sizes, positions, distinct_sizes, i as nat);
    let counts = spec_size_counts(column_log_sizes, size);
    let group = spec_size_group(column_log_sizes, samples, size, column_log_sizes.len());
    let want = spec_size_answers(
        column_log_sizes,
        samples,
        random_coeff,
        positions,
        queried_values,
        distinct_sizes,
        i,
    );
    assert forall|q: int| 0 <= q < positions[size].len() implies !#[trigger] spec_row_lacks(
        queried_values,
        at,
        counts,
        group.len(),
        q,
    ) by {
        assert(spec_is_answer(
            size,
            group,
            random_coeff,
            positions[size][q],
            queried_values,
            at,
            counts,
            q,
            answers[q],
        ));
    }
    assert(!spec_some_row_lacks(queried_values, at, counts, group.len(), positions[size].len()));
    assert forall|q: int| 0 <= q < positions[size].len() implies #[trigger] answers[q] == want[q] by {
        assert(spec_is_answer(
            size,
            group,
            random_coeff,
            positions[size][q],
            queried_values,
            at,
            counts,
            q,
            answers[q],
        ));
    }
    assert(answers =~= want);
}

/// The quotients at the queries of the columns of each size, the sizes in
/// descending order: the columns are taken tree by tree, and the values at
/// the queries are read from each tree in that order. The answer is an
/// error exactly where the answers of one of the sizes cannot be computed.
pub fn fri_answers(
    column_log_sizes: &Vec<Vec<u32>>,
    samples: &Vec<Vec<Vec<PointSample>>>,
    random_coeff: QM31,
    query_positions_per_log_size: &BTreeMap<u32, Vec<usize>>,
    queried_values: &Vec<Vec<M31>>,
    distinct_sizes: &Vec<u32>,
) -> (r: Result<Vec<Vec<QM31>>, VerificationError>)
    requires
        samples.len() == column_log_sizes.len(),
        queried_values.len() == column_log_sizes.len(),
        forall|t: int|
            0 <= t < samples.len() ==> (#[trigger] samples[t]).len() == column_log_sizes[t].len(),
    ensures
        match spec_fri_answers(
            spec_sizes_view(column_log_sizes@),
            spec_samples_by_tree(samples@),
            random_coeff,
            spec_positions(query_positions_per_log_size@),
            queried_values@,
            distinct_sizes@,
        ) {
            Some(answers) => r.is_ok() && crate::fri::layers::spec_evals_view(r.unwrap()@) == answers,
            None => r.is_err() && r.unwrap_err().spec_kind()
                == crate::verification::VerificationErrorKind::InvalidStructure,
        },
        match r {
            Ok(answers) => {
                &&& answers.len() == distinct_sizes.len()
                &&& forall|i: int|
                    0 <= i < answers.len() ==> spec_answers_fit(
                        spec_positions(query_positions_per_log_size@),
                        distinct_sizes[i],
                        (#[trigger] answers[i])@,
                    )
                &&& forall|i: int|
                    0 <= i < answers.len() ==> spec_size_answered(
                        spec_sizes_view(column_log_sizes@),
                        spec_samples_by_tree(samples@),
                        random_coeff,
                        spec_positions(query_positions_per_log_size@),
                        queried_values@,
                        distinct_sizes@,
                        i,
                        (#[trigger] answers[i])@,
                    )
            },
            Err(e) => {
                &&& e.spec_kind() == crate::verification::VerificationErrorKind::InvalidStructure
                &&& exists|i: int|
                    0 <= i < distinct_sizes.len() && #[trigger] spec_size_fails(
                        spec_sizes_view(column_log_sizes@),
                        spec_samples_by_tree(samples@),
                        spec_positions(query_positions_per_log_size@),
                        queried_values@,
                        distinct_sizes@,
                        i,
                    )
            },
        },
{
    broadcast use vstd::std_specs::btree::group_btree_axioms;

    let n_trees = column_log_sizes.len();
    let ghost positions_map = spec_positions(query_positions_per_log_size@);
    let mut cursors: Vec<usize> = Vec::with_capacity(n_trees);
    let mut t: usize = 0;
    while t < n_trees
        invariant
            t <= n_trees,
            cursors.len() == t,
            forall|k: int| 0 <= k < t ==> cursors[k] == 0,
        decreases n_trees - t,
    {
        cursors.push(0);
        t = t + 1;
    }
    proof {
        assert(cursors@ =~= spec_cursors(spec_sizes_view(column_log_sizes@), positions_map, distinct_sizes@, 0));
    }
    let mut answers: Vec<Vec<QM31>> = Vec::with_capacity(distinct_sizes.len());
    let mut i: usize = 0;
    while i < distinct_sizes.len()
        invariant
            i <= distinct_sizes.len(),
            n_trees == column_log_sizes.len(),
            samples.len() == n_trees,
            queried_values.len() == n_trees,
            cursors.len() == n_trees,
            positions_map == spec_positions(query_positions_per_log_size@),
            cursors@ == spec_cursors(spec_sizes_view(column_log_sizes@), positions_map, distinct_sizes@, i as nat),
            forall|t: int|
                0 <= t < samples.len() ==> (#[trigger] samples[t]).len()
                    == column_log_sizes[t].len(),
            answers.len() == i,
            forall|k: int|
                0 <= k < i ==> spec_answers_fit(
                    positions_map,
                    distinct_sizes[k],
                    (#[trigger] answers[k])@,
                ),
            forall|k: int|
                0 <= k < i ==> spec_size_answered(
                    spec_sizes_view(column_log_sizes@),
                    spec_samples_by_tree(samples@),
                    random_coeff,
                    positions_map,
                    queried_values@,
                    distinct_sizes@,
                    k,
                    (#[trigger] answers[k])@,
                ),
        decreases distinct_sizes.len() - i,
    {
        let log_size = distinct_sizes[i];
        if log_size < 1 || log_size > 30 {
            proof {
                assert(spec_size_fails(
                    spec_sizes_view(column_log_sizes@),
                    spec_samples_by_tree(samples@),
                    positions_map,
                    queried_values@,
                    distinct_sizes@,
                    i as int,
                ));
            }
            return Err(
                VerificationError::InvalidStructure("Column size out of range".to_string()),
            );
        }
        let positions = match query_positions_per_log_size.get(&log_size) {
            Some(p) => {
                assert(query_positions_per_log_size@.contains_key(log_size));
                assert(*p == query_positions_per_log_size@[log_size]);
                assert(positions_map[log_size] == p@);
                p
            },
            None => {
                proof {
                    assert(spec_size_fails(
                        spec_sizes_view(column_log_sizes@),
                        spec_samples_by_tree(samples@),
                        positions_map,
                        queried_values@,
                        distinct_sizes@,
                        i as int,
                    ));
                }
                return Err(
                    VerificationError::InvalidStructure(
                        "No queries for a column size".to_string(),
                    ),
                );
            },
        };
        let mut group: Vec<&Vec<PointSample>> = Vec::new();
        let mut n_columns: Vec<usize> = Vec::with_capacity(n_trees);
        let mut tree: usize = 0;
        proof {
            assert(spec_samples_view(group@) =~= spec_size_group(
                spec_sizes_view(column_log_sizes@),
                spec_samples_by_tree(samples@),
                log_size,
                0,
            ));
        }
        while tree < n_trees
            invariant
                tree <= n_trees,
                n_trees == column_log_sizes.len(),
                samples.len() == n_trees,
                forall|t: int|
                    0 <= t < samples.len() ==> (#[trigger] samples[t]).len()
                        == column_log_sizes[t].len(),
                n_columns.len() == tree,
                query_positions_per_log_size@.contains_key(log_size),
                *positions == query_positions_per_log_size@[log_size],
                positions_map[log_size] == positions@,
                positions_map.contains_key(log_size),
                spec_samples_view(group@) == spec_size_group(
                    spec_sizes_view(column_log_sizes@),
                    spec_samples_by_tree(samples@),
                    log_size,
                    tree as nat,
                ),
                forall|k: int|
                    0 <= k < tree ==> n_columns[k] == spec_size_counts(
                        spec_sizes_view(column_log_sizes@),
                        log_size,
                    )[k],
            decreases n_trees - tree,
        {
            let sizes = &column_log_sizes[tree];
            assert(samples[tree as int].len() == column_log_sizes[tree as int].len());
            let ghost head = spec_samples_view(group@);
            let mut count: usize = 0;
            let mut c: usize = 0;
            proof {
                assert(head + spec_tree_group(sizes@, spec_samples_by_tree(samples@)[tree as int], log_size, 0) =~= head);
            }
            while c < sizes.len()
                invariant
                    c <= sizes.len(),
                    count <= c,
                    tree < samples.len(),
                    samples[tree as int].len() == sizes.len(),
                    count == spec_tree_count(sizes@, log_size, c as nat),
                    spec_samples_view(group@) == head + spec_tree_group(
                        sizes@,
                        spec_samples_by_tree(samples@)[tree as int],
                        log_size,
                        c as nat,
                    ),
                decreases sizes.len() - c,
            {
                if sizes[c] == log_size {
                    let ghost before = spec_samples_view(group@);
                    group.push(&samples[tree][c]);
                    proof {
                        assert(spec_samples_view(group@) =~= before.push(
                            samples[tree as int][c as int]@,
                        ));
                        assert(head + spec_tree_group(
                            sizes@,
                            spec_samples_by_tree(samples@)[tree as int],
                            log_size,
                            c as nat,
                        ).push(samples[tree as int][c as int]@) =~= before.push(
                            samples[tree as int][c as int]@,
                        ));
                    }
                    count = count + 1;
                }
                c = c + 1;
            }
            n_columns.push(count);
            tree = tree + 1;
        }
        proof {
            assert(n_columns@ =~= spec_size_counts(spec_sizes_view(column_log_sizes@), log_size));
        }
        let ghost at = cursors@;
        let size_answers = fri_answers_for_log_size(
            log_size,
            &group,
            random_coeff,
            positions,
            queried_values,
            &mut cursors,
            &n_columns,
        );
        match size_answers {
            Err(e) => {
                proof {
                    let q = choose|q: int|
                        0 <= q < positions.len() && #[trigger] spec_row_lacks(
                            queried_values@,
                            at,
                            n_columns@,
                            group.len() as nat,
                            q,
                        );
                    assert(spec_samples_view(group@).len() == group.len());
                    let size = distinct_sizes@[i as int];
                    assert(size == log_size);
                    assert(0 <= q < positions_map[size].len() && spec_row_lacks(
                        queried_values@,
                        spec_cursors(spec_sizes_view(column_log_sizes@), positions_map, distinct_sizes@, i as nat),
                        spec_size_counts(spec_sizes_view(column_log_sizes@), size),
                        spec_size_group(
                            spec_sizes_view(column_log_sizes@),
                            spec_samples_by_tree(samples@),
                            size,
                            column_log_sizes.len() as nat,
                        ).len(),
                        q,
                    ));
                    assert(spec_some_row_lacks(
                        queried_values@,
                        spec_cursors(spec_sizes_view(column_log_sizes@), positions_map, distinct_sizes@, i as nat),
                        spec_size_counts(spec_sizes_view(column_log_sizes@), size),
                        spec_size_group(
                            spec_sizes_view(column_log_sizes@),
                            spec_samples_by_tree(samples@),
                            size,
                            column_log_sizes.len() as nat,
                        ).len(),
                        positions_map[size].len() as nat,
                    ));
                    assert(spec_size_fails(
                        spec_sizes_view(column_log_sizes@),
                        spec_samples_by_tree(samples@),
                        positions_map,
                        queried_values@,
                        distinct_sizes@,
                        i as int,
                    ));
                }
                return Err(
                    VerificationError::InvalidStructure("Not enough queried values".to_string()),
                );
            },
            Ok(a) => {
                let ghost before = answers@;
                answers.push(a);
                proof {
                    assert forall|k: int| 0 <= k < i implies answers[k] == before[k] by {}
                    assert(spec_answers_fit(
                        positions_map,
                        distinct_sizes[i as int],
                        answers[i as int]@,
                    ));
                    assert(spec_size_answered(
                        spec_sizes_view(column_log_sizes@),
                        spec_samples_by_tree(samples@),
                        random_coeff,
                        positions_map,
                        queried_values@,
                        distinct_sizes@,
                        i as int,
                        answers[i as int]@,
                    ));
                    assert(cursors@ =~= spec_cursors(
                        spec_sizes_view(column_log_sizes@),
                        positions_map,
                        distinct_sizes@,
                        (i + 1) as nat,
                    ));
                }
            },
        }
        i = i + 1;
    }
    proof {
        let want = spec_fri_answers(
            spec_sizes_view(column_log_sizes@),
            spec_samples_by_tree(samples@),
            random_coeff,
            positions_map,
            queried_values@,
            distinct_sizes@,
        );
        assert forall|k: int| 0 <= k < distinct_sizes.len() implies !#[trigger] spec_size_fails(
            spec_sizes_view(column_log_sizes@),
            spec_samples_by_tree(samples@),
            positions_map,
            queried_values@,
            distinct_sizes@,
            k,
        ) && answers[k]@ == spec_size_answers(
            spec_sizes_view(column_log_sizes@),
            spec_samples_by_tree(samples@),
            random_coeff,
            positions_map,
            queried_values@,
            distinct_sizes@,
            k,
        ) by {
            lemma_size_answered(
                spec_sizes_view(column_log_sizes@),
                spec_samples_by_tree(samples@),
                random_coeff,
                positions_map,
                queried_values@,
                distinct_sizes@,
                k,
                answers[k]@,
            );
        }
        assert(want.is_some());
        assert forall|k: int| 0 <= k < answers.len() implies #[trigger] crate::fri::layers::spec_evals_view(
            answers@,
        )[k] == want.unwrap()[k] by {
            assert(!spec_size_fails(
                spec_sizes_view(column_log_sizes@),
                spec_samples_by_tree(samples@),
                positions_map,
                queried_values@,
                distinct_sizes@,
                k,
            ));
        }
        assert(crate::fri::layers::spec_evals_view(answers@) =~= want.unwrap());
    }
    Ok(answers)
}

/// The samples of each column of each tree: each sampled point with the
/// value sampled at it, as far as there are both.
pub open spec fn spec_zip_samples(
    points: Seq<Seq<Seq<SecureCirclePoint>>>,
    values: Seq<Seq<Seq<QM31>>>,
) -> Seq<Seq<Seq<PointSample>>> {
    Seq::new(points.len(), |t: int| spec_zip_tree(points[t], values[t]))
}

/// The samples of each column of a tree.
pub open spec fn spec_zip_tree(
    points: Seq<Seq<SecureCirclePoint>>,
    values: Seq<Seq<QM31>>,
) -> Seq<Seq<PointSample>> {
    Seq::new(points.len(), |c: int| spec_zip_column(points[c], values[c]))
}

/// The samples of a column.
pub open spec fn spec_zip_column(points: Seq<SecureCirclePoint>, values: Seq<QM31>) -> Seq<PointSample> {
    Seq::new(
        if points.len() <= values.len() {
            points.len()
        } else {
            values.len()
        },
        |k: int| (PointSample { point: points[k], value: values[k] }),
    )
}

/// Whether a tree has sampled points and sampled values for as many
/// columns as it holds.
pub open spec fn spec_tree_fits(
    column_log_sizes: Seq<Seq<u32>>,
    points: Seq<Seq<Seq<SecureCirclePoint>>>,
    values: Seq<Seq<Seq<QM31>>>,
    t: int,
) -> bool {
    points[t].len() == column_log_sizes[t].len() && values[t].len() == column_log_sizes[t].len()
}

/// Whether the first `n` trees accept the values at the queries, and the
/// error of the first tree that does not.
pub open spec fn spec_trees_verify<H: MerkleHasher>(
    trees: Seq<MerkleVerifier<H>>,
    positions: Map<u32, Seq<usize>>,
    queried_values: Seq<Vec<M31>>,
    decommitments: Seq<crate::vcs::merkle_verifier::MerkleDecommitment<H>>,
    n: nat,
) -> Result<(), crate::vcs::merkle_verifier::MerkleVerificationError>
    decreases n,
{
    if n == 0 {
        Ok(())
    } else {
        match spec_trees_verify::<H>(trees, positions, queried_values, decommitments, (n - 1) as nat) {
            Err(e) => Err(e),
            Ok(_) => spec_verify::<H>(
                trees[n - 1].root,
                trees[n - 1].column_log_sizes@,
                positions,
                queried_values[n - 1]@,
                decommitments[n - 1].hash_witness@,
                decommitments[n - 1].column_witness@,
            ),
        }
    }
}

/// Once a tree has refused, the error stays.
pub proof fn lemma_trees_verify_stays<H: MerkleHasher>(
    trees: Seq<MerkleVerifier<H>>,
    positions: Map<u32, Seq<usize>>,
    queried_values: Seq<Vec<M31>>,
    decommitments: Seq<crate::vcs::merkle_verifier::MerkleDecommitment<H>>,
    m: nat,
    n: nat,
)
    requires
        m <= n,
        spec_trees_verify::<H>(trees, positions, queried_values, decommitments, m).is_err(),
    ensures
        spec_trees_verify::<H>(trees, positions, queried_values, decommitments, n)
            == spec_trees_verify::<H>(trees, positions, queried_values, decommitments, m),
    decreases n,
{
    if m < n {
        lemma_trees_verify_stays::<H>(
            trees,
            positions,
            queried_values,
            decommitments,
            m,
            (n - 1) as nat,
        );
    }
}

impl<MC: MerkleChannel> CommitmentSchemeVerifier<MC> {
    /// The sizes of the columns of each tree.
    pub open spec fn spec_column_log_sizes(self) -> Seq<Seq<u32>> {
        Seq::new(self.trees.len() as nat, |t: int| self.trees[t].column_log_sizes@)
    }

    /// The different sizes of the columns of all the trees, in descending order.
    pub open spec fn spec_distinct_log_sizes(self) -> Seq<u32> {
        spec_distinct_descending(
            spec_all_log_sizes(self.trees@, self.trees.len() as nat),
            spec_all_log_sizes(self.trees@, self.trees.len() as nat).len(),
        )
    }

    /// The degree bounds of the columns of the different sizes.
    pub open spec fn spec_bounds(self) -> Seq<CirclePolyDegreeBound> {
        let sizes = self.spec_distinct_log_sizes();
        Seq::new(
            sizes.len(),
            |i: int|
                CirclePolyDegreeBound {
                    log_degree_bound: (sizes[i] - self.config.fri_config.log_blowup_factor) as u32,
                },
        )
    }

    /// Whether the sizes of the columns suit the parameters of FRI.
    pub open spec fn spec_sizes_fit(self) -> bool {
        &&& forall|i: int|
            0 <= i < self.spec_distinct_log_sizes().len() ==> self.spec_distinct_log_sizes()[i]
                >= self.config.fri_config.log_blowup_factor
        &&& FriVerifier::<MC>::spec_bounds_fit(self.config.fri_config, self.spec_bounds())
    }

    /// The transcript after the samples were absorbed and the coefficient
    /// of the quotients was drawn.
    pub open spec fn spec_after_samples(proof: CommitmentSchemeProof<MC::H>, channel: MC::C) -> MC::C {
        channel.spec_mix_felts(
            spec_flatten_cols(proof.sampled_values@, proof.sampled_values.len() as nat),
        ).spec_draw_secure_felt().0
    }

    /// The first stages of the verification: the error with which it ends
    /// in one of them, and nothing where it passes them. The sizes of the
    /// columns must suit the parameters, the commitment stage of FRI must
    /// accept the proof, and the nonce must be a proof of work for the
    /// transcript after that stage.
    pub open spec fn spec_early_outcome(
        self,
        proof: CommitmentSchemeProof<MC::H>,
        channel: MC::C,
    ) -> Option<crate::verification::VerificationErrorKind> {
        if !self.spec_sizes_fit() {
            Some(crate::verification::VerificationErrorKind::InvalidStructure)
        } else {
            let (c2, first_alpha, alphas, outcome) = spec_commit::<MC>(
                Self::spec_after_samples(proof, channel),
                self.config.fri_config,
                proof.fri_proof,
                self.spec_bounds()[0].log_degree_bound,
            );
            match outcome {
                Err(e) => Some(crate::verification::VerificationErrorKind::Fri(e)),
                Ok(_) => {
                    if !spec_pow_holds(c2, proof.proof_of_work, self.config.pow_bits) {
                        Some(crate::verification::VerificationErrorKind::ProofOfWork)
                    } else {
                        None
                    }
                },
            }
        }
    }

    /// The last stages of the verification, for a proof that passed the
    /// first ones: the queries are drawn from the transcript after the
    /// nonce; there must be queries, every column must fold into an inner
    /// layer of FRI, and there must be as many decommitments, queried
    /// values, sampled points and sampled values as trees; every tree must
    /// accept its values at the queries, and the error is that of the first
    /// that does not; every tree must have points and values for each of
    /// its columns; the quotients at the queries must be computable from
    /// the queried values; and the decommitment stage of FRI must accept
    /// them.
    pub open spec fn spec_late_outcome(
        self,
        points: Seq<Seq<Seq<SecureCirclePoint>>>,
        proof: CommitmentSchemeProof<MC::H>,
        channel: MC::C,
    ) -> Result<(), crate::verification::VerificationErrorKind> {
        let config = self.config.fri_config;
        let bounds = self.spec_bounds();
        let random_coeff = channel.spec_mix_felts(
            spec_flatten_cols(proof.sampled_values@, proof.sampled_values.len() as nat),
        ).spec_draw_secure_felt().1;
        let (c2, first_alpha, alphas, outcome) = spec_commit::<MC>(
            Self::spec_after_samples(proof, channel),
            config,
            proof.fri_proof,
            bounds[0].log_degree_bound,
        );
        let max_log_size = (bounds[0].log_degree_bound + config.log_blowup_factor) as nat;
        let queries = spec_generate(
            c2.spec_mix_u64(proof.proof_of_work),
            max_log_size,
            Seq::empty(),
            config.n_queries as nat,
        ).1;
        let sizes = self.spec_distinct_log_sizes();
        let positions = spec_query_positions(queries, max_log_size, sizes);
        let values = crate::air::component::spec_mask_view(proof.sampled_values@);
        let n = self.trees.len();
        if config.n_queries == 0 || !FriVerifier::<MC>::spec_bounds_fold(config, bounds) || n
            != proof.decommitments.len() || n
            != proof.queried_values.len() || n != points.len() || n != values.len() {
            Err(crate::verification::VerificationErrorKind::InvalidStructure)
        } else {
            match spec_trees_verify::<MC::H>(
                self.trees@,
                positions,
                proof.queried_values@,
                proof.decommitments@,
                n as nat,
            ) {
                Err(e) => Err(crate::verification::VerificationErrorKind::Merkle(e)),
                Ok(_) => {
                    if !(forall|t: int|
                        0 <= t < n ==> #[trigger] spec_tree_fits(
                            self.spec_column_log_sizes(),
                            points,
                            values,
                            t,
                        )) {
                        Err(crate::verification::VerificationErrorKind::InvalidStructure)
                    } else {
                        match spec_fri_answers(
                            self.spec_column_log_sizes(),
                            spec_zip_samples(points, values),
                            random_coeff,
                            positions,
                            proof.queried_values@,
                            sizes,
                        ) {
                            None => Err(crate::verification::VerificationErrorKind::InvalidStructure),
                            Some(answers) => match spec_decommit_stage::<MC::H>(
                                config,
                                proof.fri_proof,
                                bounds,
                                first_alpha,
                                alphas,
                                queries,
                                answers,
                            ) {
                                Err(e) => Err(crate::verification::VerificationErrorKind::Fri(e)),
                                Ok(_) => Ok(()),
                            },
                        }
                    }
                },
            }
        }
    }

    /// The outcome of the verification: the error of the first stages, if
    /// there is one, and else what the last stages give.
    pub open spec fn spec_outcome(
        self,
        points: Seq<Seq<Seq<SecureCirclePoint>>>,
        proof: CommitmentSchemeProof<MC::H>,
        channel: MC::C,
    ) -> Result<(), crate::verification::VerificationErrorKind> {
        match self.spec_early_outcome(proof, channel) {
            Some(kind) => Err(kind),
            None => self.spec_late_outcome(points, proof, channel),
        }
    }

    /// Verifies the samples against the commitments: the samples are
    /// absorbed, the FRI proof of their quotients is read, the proof of work
    /// is checked, the queries are drawn, the values at the queries are
    /// checked against the trees, and the quotients that the values give at
    /// the queries are checked by FRI.
    pub fn verify_values(
        &self,
        sampled_points: Vec<Vec<Vec<SecureCirclePoint>>>,
        proof: CommitmentSchemeProof<MC::H>,
        channel: &mut MC::C,
    ) -> (r: Result<(), VerificationError>)
        ensures
            match self.spec_outcome(spec_points_view(sampled_points@), proof, *old(channel)) {
                Ok(_) => r.is_ok(),
                Err(kind) => r.is_err() && r.unwrap_err().spec_kind() == kind,
            },
    {
        let CommitmentSchemeProof {
            config: _,
            commitments: _,
            sampled_values,
            decommitments,
            queried_values,
            proof_of_work,
            fri_proof,
        } = proof;
        let flat = flatten_cols(&sampled_values);
        channel.mix_felts(&flat);
        let random_coeff = channel.draw_secure_felt();
        let sizes = self.distinct_log_sizes();
        let fri_config = self.config.fri_config;
        let blowup = fri_config.log_blowup_factor;
        let mut bounds: Vec<CirclePolyDegreeBound> = Vec::with_capacity(sizes.len());
        let mut i: usize = 0;
        while i < sizes.len()
            invariant
                i <= sizes.len(),
                bounds.len() == i,
                sizes@ == self.spec_distinct_log_sizes(),
                blowup == self.config.fri_config.log_blowup_factor,
                forall|k: int| 0 <= k < i ==> sizes[k] >= blowup,
                forall|k: int|
                    0 <= k < i ==> bounds[k] == (CirclePolyDegreeBound {
                        log_degree_bound: (sizes[k] - blowup) as u32,
                    }),
            decreases sizes.len() - i,
        {
            if sizes[i] < blowup {
                assert(!self.spec_sizes_fit());
                return Err(
                    VerificationError::InvalidStructure(
                        "Column smaller than the blow-up".to_string(),
                    ),
                );
            }
            bounds.push(CirclePolyDegreeBound::new(sizes[i] - blowup));
            i = i + 1;
        }
        let ghost spec_bounds = Seq::new(
            sizes@.len(),
            |i: int| CirclePolyDegreeBound { log_degree_bound: (sizes[i] - blowup) as u32 },
        );
        assert(bounds@ =~= spec_bounds);
        assert(bounds@ =~= self.spec_bounds());
        if !FriVerifier::<MC>::bounds_fit(fri_config, &bounds) {
            return Err(
                VerificationError::InvalidStructure(
                    "Degree bounds do not fit the parameters".to_string(),
                ),
            );
        }
        let ghost bounds_seq = bounds@;
        let mut fri_verifier = match FriVerifier::<MC>::commit(
            channel,
            fri_config,
            fri_proof,
            bounds,
        ) {
            Err(e) => {
                return Err(VerificationError::Fri(e));
            },
            Ok(v) => v,
        };
        if !crate::channel::verify_pow_nonce(&*channel, proof_of_work, self.config.pow_bits) {
            return Err(VerificationError::ProofOfWork);
        }
        let ghost after_commit = *channel;
        channel.mix_u64(proof_of_work);
        assert(self.spec_early_outcome(proof, *old(channel)).is_none());
        let ghost points = spec_points_view(sampled_points@);
        let ghost values = crate::air::component::spec_mask_view(sampled_values@);
        let ghost late = self.spec_late_outcome(points, proof, *old(channel));
        if fri_config.n_queries == 0 {
            return Err(VerificationError::InvalidStructure("No queries".to_string()));
        }
        if !fri_verifier.columns_fold() {
            return Err(
                VerificationError::InvalidStructure(
                    "Column that folds into no layer".to_string(),
                ),
            );
        }
        let ghost max_log = fri_verifier.spec_max_log_size();
        let ghost first = fri_verifier.spec_first_layer();
        let ghost committed = fri_verifier;
        proof {
            assert(committed.wf());
        }
        let query_positions_per_log_size = fri_verifier.sample_query_positions(channel);
        let ghost positions = spec_positions(query_positions_per_log_size@);
        let ghost queries = fri_verifier.spec_queries().unwrap();
        proof {
            assert(first.column_commitment_domains[0].spec_log_size() == bounds_seq[0].log_degree_bound
                + blowup);
            assert(crate::fri::verification::spec_domain_log_sizes(
                first.column_commitment_domains@,
            ) =~= sizes@) by {
                assert forall|i: int| 0 <= i < sizes.len() implies (
                #[trigger] first.column_commitment_domains[i]).spec_log_size() == sizes[i] by {
                    assert(bounds_seq[i].log_degree_bound == sizes[i] - blowup);
                }
            }
        }
        if self.trees.len() != decommitments.len() || self.trees.len() != queried_values.len()
            || self.trees.len() != sampled_points.len() || self.trees.len()
            != sampled_values.len() {
            return Err(
                VerificationError::InvalidStructure("Wrong number of trees".to_string()),
            );
        }
        let mut t: usize = 0;
        while t < self.trees.len()
            invariant
                t <= self.trees.len(),
                self.trees.len() == decommitments.len(),
                self.trees.len() == queried_values.len(),
                positions == spec_positions(query_positions_per_log_size@),
                decommitments == proof.decommitments,
                queried_values == proof.queried_values,
                late == self.spec_late_outcome(points, proof, *old(channel)),
                points == spec_points_view(sampled_points@),
                self.spec_early_outcome(proof, *old(channel)).is_none(),
                spec_trees_verify::<MC::H>(
                    self.trees@,
                    positions,
                    queried_values@,
                    decommitments@,
                    t as nat,
                ).is_ok(),
                match spec_trees_verify::<MC::H>(
                    self.trees@,
                    positions,
                    queried_values@,
                    decommitments@,
                    self.trees.len() as nat,
                ) {
                    Err(e) => late == Err::<(), crate::verification::VerificationErrorKind>(
                        crate::verification::VerificationErrorKind::Merkle(e),
                    ),
                    Ok(_) => true,
                },
            decreases self.trees.len() - t,
        {
            match self.trees[t].verify(
                &query_positions_per_log_size,
                &queried_values[t],
                &decommitments[t],
            ) {
                Err(e) => {
                    proof {
                        lemma_trees_verify_stays::<MC::H>(
                            self.trees@,
                            positions,
                            queried_values@,
                            decommitments@,
                            (t + 1) as nat,
                            self.trees.len() as nat,
                        );
                    }
                    return Err(VerificationError::Merkle(e));
                },
                Ok(_) => {},
            }
            t = t + 1;
        }
        let column_log_sizes = self.column_log_sizes();
        proof {
            assert(spec_sizes_view(column_log_sizes@) =~= self.spec_column_log_sizes());
        }
        let mut samples: Vec<Vec<Vec<PointSample>>> = Vec::with_capacity(self.trees.len());
        let mut tree: usize = 0;
        while tree < self.trees.len()
            invariant
                tree <= self.trees.len(),
                self.trees.len() == sampled_points.len(),
                self.trees.len() == sampled_values.len(),
                column_log_sizes.len() == self.trees.len(),
                spec_sizes_view(column_log_sizes@) == self.spec_column_log_sizes(),
                points == spec_points_view(sampled_points@),
                values == crate::air::component::spec_mask_view(sampled_values@),
                samples.len() == tree,
                forall|k: int|
                    0 <= k < tree ==> (#[trigger] samples[k]).len() == column_log_sizes[k].len(),
                forall|k: int|
                    0 <= k < tree ==> #[trigger] spec_tree_fits(
                        self.spec_column_log_sizes(),
                        points,
                        values,
                        k,
                    ),
                forall|k: int|
                    0 <= k < self.trees.len() && !#[trigger] spec_tree_fits(
                        self.spec_column_log_sizes(),
                        points,
                        values,
                        k,
                    ) ==> late == Err::<(), crate::verification::VerificationErrorKind>(
                        crate::verification::VerificationErrorKind::InvalidStructure,
                    ),
                late == self.spec_late_outcome(points, proof, *old(channel)),
                self.spec_early_outcome(proof, *old(channel)).is_none(),
                forall|k: int|
                    0 <= k < tree ==> #[trigger] spec_samples_by_tree(samples@)[k] == spec_zip_tree(
                        points[k],
                        values[k],
                    ),
            decreases self.trees.len() - tree,
        {
            let points_of_tree = &sampled_points[tree];
            let values_of_tree = &sampled_values[tree];
            assert(spec_sizes_view(column_log_sizes@)[tree as int] == column_log_sizes[tree as int]@);
            if points_of_tree.len() != column_log_sizes[tree].len() || values_of_tree.len()
                != column_log_sizes[tree].len() {
                proof {
                    assert(!spec_tree_fits(
                        self.spec_column_log_sizes(),
                        points,
                        values,
                        tree as int,
                    ));
                }
                return Err(
                    VerificationError::InvalidStructure("Wrong number of columns".to_string()),
                );
            }
            let mut tree_samples: Vec<Vec<PointSample>> = Vec::with_capacity(points_of_tree.len());
            let mut c: usize = 0;
            while c < points_of_tree.len()
                invariant
                    c <= points_of_tree.len(),
                    points_of_tree.len() == values_of_tree.len(),
                    tree_samples.len() == c,
                    forall|j: int|
                        0 <= j < c ==> (#[trigger] tree_samples[j])@ == spec_zip_column(
                            points_of_tree[j]@,
                            values_of_tree[j]@,
                        ),
                decreases points_of_tree.len() - c,
            {
                let mut column_samples: Vec<PointSample> = Vec::new();
                let mut k: usize = 0;
                while k < points_of_tree[c].len() && k < values_of_tree[c].len()
                    invariant
                        c < points_of_tree.len(),
                        c < values_of_tree.len(),
                        k <= points_of_tree[c as int].len(),
                        k <= values_of_tree[c as int].len(),
                        column_samples.len() == k,
                        forall|j: int|
                            0 <= j < k ==> column_samples[j] == (PointSample {
                                point: points_of_tree[c as int][j],
                                value: values_of_tree[c as int][j],
                            }),
                    decreases points_of_tree[c as int].len() - k,
                {
                    column_samples.push(
                        PointSample { point: points_of_tree[c][k], value: values_of_tree[c][k] },
                    );
                    k = k + 1;
                }
                proof {
                    assert(column_samples@ =~= spec_zip_column(
                        points_of_tree[c as int]@,
                        values_of_tree[c as int]@,
                    ));
                }
                tree_samples.push(column_samples);
                c = c + 1;
            }
            let ghost before = samples@;
            samples.push(tree_samples);
            proof {
                assert forall|k: int| 0 <= k < tree implies #[trigger] spec_samples_by_tree(
                    samples@,
                )[k] == spec_zip_tree(points[k], values[k]) by {
                    assert(samples[k] == before[k]);
                    assert(spec_samples_by_tree(samples@)[k] =~= spec_samples_by_tree(before)[k]);
                }
                assert(spec_samples_by_tree(samples@)[tree as int] =~= spec_zip_tree(
                    points[tree as int],
                    values[tree as int],
                ));
                assert(spec_tree_fits(self.spec_column_log_sizes(), points, values, tree as int));
            }
            tree = tree + 1;
        }
        proof {
            assert(spec_samples_by_tree(samples@) =~= spec_zip_samples(points, values));
        }
        let answers = match fri_answers(
            &column_log_sizes,
            &samples,
            random_coeff,
            &query_positions_per_log_size,
            &queried_values,
            &sizes,
        ) {
            Err(e) => {
                return Err(e);
            },
            Ok(a) => a,
        };
        proof {
            let domain_sizes = crate::fri::verification::spec_domain_log_sizes(
                first.column_commitment_domains@,
            );
            assert forall|i: int| 0 <= i < first.column_commitment_domains.len() implies {
                &&& (#[trigger] first.column_commitment_domains[i]).spec_log_size()
                    <= queries.spec_log_domain_size()
                &&& answers@[i].len() == crate::queries::spec_fold_positions(
                    queries@,
                    (queries.spec_log_domain_size()
                        - first.column_commitment_domains[i].spec_log_size()) as nat,
                ).len()
            } by {
                let b = first.column_bounds[i];
                let b0 = first.column_bounds[0];
                assert(b.log_degree_bound <= b0.log_degree_bound);
                assert(first.column_commitment_domains[i].spec_log_size() == sizes[i]);
                assert(domain_sizes[i] == sizes[i]);
                assert(domain_sizes.contains(sizes[i]));
                assert(spec_answers_fit(
                    spec_positions(query_positions_per_log_size@),
                    sizes[i],
                    answers@[i]@,
                ));
                lemma_query_positions_lookup(queries@, max_log, domain_sizes, sizes[i]);
            }
        }
        match fri_verifier.decommit(answers) {
            Err(e) => Err(VerificationError::Fri(e)),
            Ok(_) => Ok(()),
        }
    }
}

/// All the values, tree by tree and column by column.
pub fn flatten_cols(trees: &Vec<Vec<Vec<QM31>>>) -> (r: Vec<QM31>)
    ensures
        r@ == spec_flatten_cols(trees@, trees.len() as nat),
{
    let mut out: Vec<QM31> = Vec::new();
    let mut t: usize = 0;
    while t < trees.len()
        invariant
            t <= trees.len(),
            out@ == spec_flatten_cols(trees@, t as nat),
        decreases trees.len() - t,
    {
        let tree = &trees[t];
        let ghost before = out@;
        let mut c: usize = 0;
        while c < tree.len()
            invariant
                c <= tree.len(),
                out@ == before + spec_flatten_tree(tree@, c as nat),
            decreases tree.len() - c,
        {
            let column = &tree[c];
            let ghost seen = out@;
            let mut k: usize = 0;
            while k < column.len()
                invariant
                    k <= column.len(),
                    out@ == seen + column@.subrange(0, k as int),
                decreases column.len() - k,
            {
                out.push(column[k]);
                proof {
                    assert(out@ =~= seen + column@.subrange(0, k + 1));
                }
                k = k + 1;
            }
            proof {
                assert(column@.subrange(0, column.len() as int) =~= column@);
                assert(out@ =~= before + spec_flatten_tree(tree@, (c + 1) as nat));
            }
            c = c + 1;
        }
        t = t + 1;
    }
    out
}

} // verus!
