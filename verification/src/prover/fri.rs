//! The FRI prover: it commits to the evaluations layer by layer, folding
//! with coefficients drawn from the transcript, and opens the layers at the
//! queried positions.

use vstd::prelude::*;
use std::collections::BTreeMap;
use vstd::arithmetic::power2::{lemma2_to64, lemma_pow2_pos, lemma_pow2_unfold, pow2};
use crate::channel::{Channel, MerkleChannel};
use crate::fields::m31::M31;
use crate::fields::qm31::QM31;
use crate::fri::config::{FriConfig, FriLayerProof, FriProof};
use crate::fri::fold::{
    fold_circle_pair, fold_pair, spec_fold_circle_into_line, spec_fold_line,
};
use crate::fri::verification::{
    get_query_positions_by_log_size, spec_line_layer_domain, spec_query_positions,
};
use crate::poly::domain::CircleDomain;
use crate::poly::line::{LineDomain, LinePoly};
use crate::prover::line::{spec_interpolate, LineEvaluation};
use crate::prover::poly::circle::SecureEvaluation;
use crate::prover::secure_column::SecureColumnByCoords;
use crate::prover::vcs::merkle_prover::{
    spec_columns, spec_decommit_layers, spec_decommit_start, spec_queries_fit, MerkleProver,
};
use crate::queries::{spec_fold_positions, spec_generate, Queries};
use crate::utils::{
    bit_reverse_index, copy_vec, exact_log2, lemma_pow2_monotone, pow2_usize, spec_bit_reversed,
};
use crate::vcs::hasher::MerkleHasher;
use crate::vcs::merkle_verifier::spec_positions;

verus! {

/// The processor on which the prover runs.
#[derive(Copy, Clone, Debug, Default)]
pub struct CpuBackend;

/// The operations of FRI that a processor provides. Whatever the processor,
/// the results are those of the folds as they are defined on sequences.
pub trait FriOps {
    /// Folds an evaluation on a line domain into one on the doubled domain.
    fn fold_line(eval: &LineEvaluation, alpha: QM31) -> (r: LineEvaluation)
        requires
            eval.wf(),
            eval.domain.spec_log_size() >= 1,
        ensures
            r.wf(),
            r.domain == eval.domain.spec_double(),
            r.domain.spec_log_size() == eval.domain.spec_log_size() - 1,
            r.values@ == spec_fold_line(eval.values@, eval.domain, alpha),
    ;

    /// Folds an evaluation on a circle domain and accumulates it into `dst`.
    fn fold_circle_into_line(dst: &mut LineEvaluation, src: &SecureEvaluation, alpha: QM31)
        requires
            old(dst).wf(),
            src.wf(),
            src.values@.len() / 2 == old(dst).values@.len(),
        ensures
            final(dst).wf(),
            final(dst).domain == old(dst).domain,
            final(dst).values@ == spec_fold_circle_into_line(
                old(dst).values@,
                src.values@,
                src.domain,
                alpha,
            ),
    ;

    /// Splits an evaluation into one in the space of the transform and the
    /// coefficient of what is left over.
    fn decompose(eval: &SecureEvaluation) -> (r: (SecureEvaluation, QM31))
        requires
            eval.wf(),
        ensures
            r.1 == spec_decomposition_coefficient(eval.values@),
            r.0.domain == eval.domain,
            r.0.values@ == spec_decompose(eval.values@, r.1),
            r.0.wf(),
    ;
}

/// The sum of the values from `from` up to `to`, added from the first on.
pub open spec fn spec_sum(values: Seq<QM31>, from: int, to: int) -> QM31
    decreases to - from,
{
    if to <= from {
        QM31::spec_zero()
    } else {
        spec_sum(values, from, to - 1).spec_add(values[to - 1])
    }
}

/// The coefficient `lambda` of the part of an evaluation that lies outside
/// the space of the transform: the sum of the first half minus the sum of
/// the second half, over the number of values.
pub open spec fn spec_decomposition_coefficient(values: Seq<QM31>) -> QM31 {
    let n = values.len() as int;
    let half = n / 2;
    spec_sum(values, 0, half).spec_sub(spec_sum(values, half, n)).spec_mul_m31(
        M31::from_int(n).spec_inverse(),
    )
}

/// The evaluation less `lambda` times the alternating polynomial, which is
/// one on the first half and minus one on the second.
pub open spec fn spec_decompose(values: Seq<QM31>, lambda: QM31) -> Seq<QM31> {
    Seq::new(
        values.len(),
        |i: int|
            if i < values.len() / 2 {
                values[i].spec_sub(lambda)
            } else {
                values[i].spec_add(lambda)
            },
    )
}

/// An evaluation is its part inside the space of the transform plus
/// `lambda` times the alternating polynomial: adding `lambda` back on the
/// first half, and taking it off the second, gives every value again.
pub proof fn lemma_decompose_recomposes(values: Seq<QM31>, lambda: QM31, i: int)
    requires
        0 <= i < values.len(),
        values[i].wf(),
        lambda.wf(),
    ensures
        i < values.len() / 2 ==> spec_decompose(values, lambda)[i].spec_add(lambda) == values[i],
        i >= values.len() / 2 ==> spec_decompose(values, lambda)[i].spec_sub(lambda) == values[i],
{
    QM31::lemma_sub_add_cancel(values[i], lambda);
}

/// Folds an evaluation on a line domain into one on the doubled domain.
pub fn fold_line_cpu(eval: &LineEvaluation, alpha: QM31) -> (r: LineEvaluation)
    requires
        eval.wf(),
        eval.domain.spec_log_size() >= 1,
    ensures
        r.wf(),
        r.domain == eval.domain.spec_double(),
        r.domain.spec_log_size() == eval.domain.spec_log_size() - 1,
        r.values@ == spec_fold_line(eval.values@, eval.domain, alpha),
{
    let domain = eval.domain();
    let len = eval.len();
    let n = len / 2;
    let log_size = domain.log_size();
    proof {
        lemma_pow2_unfold(log_size as nat);
    }
    let mut folded: Vec<QM31> = Vec::with_capacity(n);
    let mut i: usize = 0;
    while i < n
        invariant
            i <= n,
            eval.wf(),
            len == eval.values@.len(),
            n == len / 2,
            domain == eval.domain,
            log_size == domain.spec_log_size(),
            log_size <= 31,
            folded.len() == i,
            folded@ == spec_fold_line(eval.values@, domain, alpha).subrange(0, i as int),
        decreases n - i,
    {
        let x = domain.at(bit_reverse_index(2 * i, log_size));
        let v = fold_pair(eval.values.at(2 * i), eval.values.at(2 * i + 1), x.inverse_or_zero(), alpha);
        folded.push(v);
        proof {
            assert(folded@ =~= spec_fold_line(eval.values@, domain, alpha).subrange(0, i + 1));
        }
        i = i + 1;
    }
    proof {
        assert(folded@ =~= spec_fold_line(eval.values@, domain, alpha));
    }
    LineEvaluation::new(domain.double(), SecureColumnByCoords::from_vec(&folded))
}

/// Folds an evaluation on a circle domain and accumulates it into `dst`.
pub fn fold_circle_into_line_cpu(dst: &mut LineEvaluation, src: &SecureEvaluation, alpha: QM31)
    requires
        old(dst).wf(),
        src.wf(),
        src.values@.len() / 2 == old(dst).values@.len(),
    ensures
        final(dst).wf(),
        final(dst).domain == old(dst).domain,
        final(dst).values@ == spec_fold_circle_into_line(
            old(dst).values@,
            src.values@,
            src.domain,
            alpha,
        ),
{
    let n = dst.values.len();
    let len = src.values.len();
    let domain = src.domain;
    let log_size = domain.log_size();
    let alpha_sq = alpha.mul(alpha);
    let mut i: usize = 0;
    while i < n
        invariant
            i <= n,
            src.wf(),
            dst.wf(),
            dst.domain == old(dst).domain,
            n == dst.values@.len(),
            n == old(dst).values@.len(),
            len == src.values@.len(),
            len / 2 == n,
            domain == src.domain,
            log_size == domain.spec_log_size(),
            log_size <= 31,
            alpha_sq == alpha.spec_mul(alpha),
            forall|j: int| i <= j < n ==> dst.values@[j] == old(dst).values@[j],
            forall|j: int|
                0 <= j < i ==> dst.values@[j] == spec_fold_circle_into_line(
                    old(dst).values@,
                    src.values@,
                    src.domain,
                    alpha,
                )[j],
        decreases n - i,
    {
        let p = domain.at(bit_reverse_index(2 * i, log_size));
        let f_prime = fold_circle_pair(
            src.values.at(2 * i),
            src.values.at(2 * i + 1),
            p.y.inverse_or_zero(),
            alpha,
        );
        let v = dst.values.at(i).mul(alpha_sq).add(f_prime);
        dst.values.set(i, v);
        i = i + 1;
    }
    proof {
        assert(dst.values@ =~= spec_fold_circle_into_line(
            old(dst).values@,
            src.values@,
            src.domain,
            alpha,
        ));
    }
}

impl CpuBackend {
    /// The coefficient of the part of an evaluation outside the space of the transform.
    pub fn decomposition_coefficient(eval: &SecureEvaluation) -> (r: QM31)
        requires
            eval.wf(),
        ensures
            r == spec_decomposition_coefficient(eval.values@),
    {
        let n = eval.values.len();
        let half = n / 2;
        let mut a_sum = QM31::zero();
        let mut i: usize = 0;
        while i < half
            invariant
                i <= half,
                half <= n,
                eval.wf(),
                n == eval.values@.len(),
                a_sum == spec_sum(eval.values@, 0, i as int),
            decreases half - i,
        {
            a_sum = a_sum.add(eval.values.at(i));
            i = i + 1;
        }
        let mut b_sum = QM31::zero();
        let mut j: usize = half;
        while j < n
            invariant
                half <= j <= n,
                eval.wf(),
                n == eval.values@.len(),
                b_sum == spec_sum(eval.values@, half as int, j as int),
            decreases n - j,
        {
            b_sum = b_sum.add(eval.values.at(j));
            j = j + 1;
        }
        proof {
            eval.domain.spec_half_coset().spec_log_size();
            lemma_pow2_monotone(eval.domain.spec_log_size(), 31);
            lemma2_to64();
        }
        a_sum.sub(b_sum).mul_m31(M31::from_u32(n as u32).inverse_or_zero())
    }
}

impl FriOps for CpuBackend {
    fn fold_line(eval: &LineEvaluation, alpha: QM31) -> (r: LineEvaluation) {
        fold_line_cpu(eval, alpha)
    }

    fn fold_circle_into_line(dst: &mut LineEvaluation, src: &SecureEvaluation, alpha: QM31) {
        fold_circle_into_line_cpu(dst, src, alpha)
    }

    fn decompose(eval: &SecureEvaluation) -> (r: (SecureEvaluation, QM31)) {
        let lambda = CpuBackend::decomposition_coefficient(eval);
        let n = eval.values.len();
        let half = n / 2;
        let mut g_values: Vec<QM31> = Vec::with_capacity(n);
        let mut i: usize = 0;
        while i < n
            invariant
                i <= n,
                eval.wf(),
                n == eval.values@.len(),
                half == n / 2,
                g_values.len() == i,
                forall|k: int|
                    0 <= k < i ==> g_values[k] == spec_decompose(eval.values@, lambda)[k],
            decreases n - i,
        {
            let x = eval.values.at(i);
            if i < half {
                g_values.push(x.sub(lambda));
            } else {
                g_values.push(x.add(lambda));
            }
            i = i + 1;
        }
        proof {
            assert(g_values@ =~= spec_decompose(eval.values@, lambda));
        }
        (SecureEvaluation::new(eval.domain, SecureColumnByCoords::from_vec(&g_values)), lambda)
    }
}


/// The coordinate columns of the evaluations: four for each, in their order.
pub open spec fn spec_coordinate_columns(columns: Seq<SecureEvaluation>) -> Seq<Seq<M31>> {
    Seq::new(4 * columns.len(), |i: int| columns[i / 4].values.spec_column(i % 4))
}

/// The four coordinate columns of one column.
pub open spec fn spec_coordinates(values: SecureColumnByCoords) -> Seq<Seq<M31>> {
    Seq::new(4, |i: int| values.spec_column(i))
}

/// All the base-field coordinate columns of the evaluations.
pub fn extract_coordinate_columns<'a>(columns: &'a Vec<SecureEvaluation>) -> (r: Vec<&'a Vec<M31>>)
    requires
        forall|i: int| 0 <= i < columns.len() ==> (#[trigger] columns[i]).wf(),
    ensures
        spec_columns(r@) == spec_coordinate_columns(columns@),
        r.len() == 4 * columns.len(),
{
    let mut out: Vec<&'a Vec<M31>> = Vec::new();
    let mut i: usize = 0;
    while i < columns.len()
        invariant
            i <= columns.len(),
            forall|k: int| 0 <= k < columns.len() ==> (#[trigger] columns[k]).wf(),
            out.len() == 4 * i,
            forall|k: int|
                0 <= k < out.len() ==> (#[trigger] out[k])@ == columns[k / 4].values.spec_column(
                    k % 4,
                ),
        decreases columns.len() - i,
    {
        assert(columns[i as int].wf());
        let column = &columns[i];
        out.push(column.values.column(0));
        out.push(column.values.column(1));
        out.push(column.values.column(2));
        out.push(column.values.column(3));
        i = i + 1;
    }
    proof {
        assert(spec_columns(out@) =~= spec_coordinate_columns(columns@));
    }
    out
}

/// The four coordinate columns of one column.
fn coordinates_of<'a>(values: &'a SecureColumnByCoords) -> (r: Vec<&'a Vec<M31>>)
    requires
        values.wf(),
    ensures
        spec_columns(r@) == spec_coordinates(*values),
        r.len() == 4,
        forall|k: int| 0 <= k < 4 ==> (#[trigger] r[k])@.len() == values@.len(),
{
    let mut out: Vec<&'a Vec<M31>> = Vec::new();
    out.push(values.column(0));
    out.push(values.column(1));
    out.push(values.column(2));
    out.push(values.column(3));
    proof {
        assert(spec_columns(out@) =~= spec_coordinates(*values));
    }
    out
}

/// What the collection of witness values has read and written.
pub struct WitnessState {
    /// The next query.
    pub query_at: nat,
    /// The positions to decommit, two for each pair.
    pub positions: Seq<usize>,
    /// The values at the positions that were not queried.
    pub witness: Seq<QM31>,
}

/// What a position adds to the witness: nothing if the next query of the
/// pair is the position, else the value at the position.
pub open spec fn spec_witness_pick(
    values: Seq<QM31>,
    queries: Seq<usize>,
    chunk_end: nat,
    cursor: nat,
    witness: Seq<QM31>,
    position: int,
) -> (nat, Seq<QM31>) {
    if cursor < chunk_end && queries[cursor as int] == position {
        (cursor + 1, witness)
    } else {
        (cursor, witness.push(values[position]))
    }
}

/// The rest of the positions and witness values, from the state `st` on.
pub open spec fn spec_witness_evals(values: Seq<QM31>, queries: Seq<usize>, st: WitnessState) -> WitnessState
    decreases queries.len() - st.query_at,
    via spec_witness_evals_decreases
{
    if st.query_at >= queries.len() {
        st
    } else {
        let key = (queries[st.query_at as int] / 2) as usize;
        let start = 2 * key;
        let end = crate::fri::sparse::spec_chunk_end(queries, st.query_at + 1, key);
        let (c1, w1) = spec_witness_pick(values, queries, end, st.query_at, st.witness, start);
        let (c2, w2) = spec_witness_pick(values, queries, end, c1, w1, start + 1);
        spec_witness_evals(
            values,
            queries,
            WitnessState {
                query_at: end,
                positions: st.positions.push(start as usize).push((start + 1) as usize),
                witness: w2,
            },
        )
    }
}

#[via_fn]
proof fn spec_witness_evals_decreases(values: Seq<QM31>, queries: Seq<usize>, st: WitnessState) {
    if st.query_at < queries.len() {
        let key = (queries[st.query_at as int] / 2) as usize;
        crate::fri::sparse::lemma_chunk_end(queries, st.query_at + 1, key);
    }
}

/// One group of queries.
pub proof fn lemma_witness_evals_unfold(values: Seq<QM31>, queries: Seq<usize>, st: WitnessState)
    requires
        st.query_at < queries.len(),
    ensures
        spec_witness_evals(values, queries, st) == ({
            let key = (queries[st.query_at as int] / 2) as usize;
            let start = 2 * key;
            let end = crate::fri::sparse::spec_chunk_end(queries, st.query_at + 1, key);
            let (c1, w1) = spec_witness_pick(values, queries, end, st.query_at, st.witness, start);
            let (c2, w2) = spec_witness_pick(values, queries, end, c1, w1, start + 1);
            spec_witness_evals(
                values,
                queries,
                WitnessState {
                    query_at: end,
                    positions: st.positions.push(start as usize).push((start + 1) as usize),
                    witness: w2,
                },
            )
        }),
{
}

/// The state in which the collection starts.
pub open spec fn spec_witness_start() -> WitnessState {
    WitnessState { query_at: 0, positions: Seq::empty(), witness: Seq::empty() }
}

/// The positions to decommit for the queries of a column, and the values
/// at those of them that the verifier cannot compute.
pub fn compute_decommitment_positions_and_witness_evals(
    column: &SecureColumnByCoords,
    query_positions: &Vec<usize>,
    fold_step: u32,
) -> (r: (Vec<usize>, Vec<QM31>))
    requires
        fold_step == 1,
        column.wf(),
        column@.len() % 2 == 0,
        forall|i: int| 0 <= i < query_positions.len() ==> query_positions[i] < column@.len(),
    ensures
        ({
            let st = spec_witness_evals(column@, query_positions@, spec_witness_start());
            r.0@ == st.positions && r.1@ == st.witness
        }),
        forall|i: int| 0 <= i < r.0.len() ==> r.0[i] < column@.len(),
{
    let len = column.len();
    let mut positions: Vec<usize> = Vec::new();
    let mut witness: Vec<QM31> = Vec::new();
    let mut query_at: usize = 0;
    while query_at < query_positions.len()
        invariant
            column.wf(),
            len == column@.len(),
            len % 2 == 0,
            forall|i: int| 0 <= i < query_positions.len() ==> query_positions[i] < len,
            forall|i: int| 0 <= i < positions.len() ==> positions[i] < len,
            query_at <= query_positions.len(),
            spec_witness_evals(
                column@,
                query_positions@,
                WitnessState {
                    query_at: query_at as nat,
                    positions: positions@,
                    witness: witness@,
                },
            ) == spec_witness_evals(column@, query_positions@, spec_witness_start()),
        decreases query_positions.len() - query_at,
    {
        proof {
            lemma_witness_evals_unfold(
                column@,
                query_positions@,
                WitnessState {
                    query_at: query_at as nat,
                    positions: positions@,
                    witness: witness@,
                },
            );
        }
        let key = query_positions[query_at] / 2;
        let start = 2 * key;
        let mut end = query_at + 1;
        while end < query_positions.len() && query_positions[end] / 2 == key
            invariant
                query_at < end <= query_positions.len(),
                crate::fri::sparse::spec_chunk_end(query_positions@, end as nat, key)
                    == crate::fri::sparse::spec_chunk_end(
                    query_positions@,
                    (query_at + 1) as nat,
                    key,
                ),
            decreases query_positions.len() - end,
        {
            end = end + 1;
        }
        let mut cursor = query_at;
        positions.push(start);
        if cursor < end && query_positions[cursor] == start {
            cursor = cursor + 1;
        } else {
            witness.push(column.at(start));
        }
        positions.push(start + 1);
        if cursor < end && query_positions[cursor] == start + 1 {
            cursor = cursor + 1;
        } else {
            witness.push(column.at(start + 1));
        }
        query_at = end;
    }
    (positions, witness)
}

/// The witness values of the first `n` columns at the queries, one column
/// after the other: the queries are folded down to the size of each
/// column.
pub open spec fn spec_first_witness(
    domains: Seq<CircleDomain>,
    values: Seq<Seq<QM31>>,
    queries: Seq<usize>,
    log_domain_size: nat,
    n: nat,
) -> Seq<QM31>
    decreases n,
{
    if n == 0 {
        Seq::empty()
    } else {
        spec_first_witness(domains, values, queries, log_domain_size, (n - 1) as nat)
            + spec_witness_evals(
            values[n - 1],
            spec_fold_positions(queries, (log_domain_size - domains[n - 1].spec_log_size()) as nat),
            spec_witness_start(),
        ).witness
    }
}

/// The positions at which the tree of the first layer is opened, by the
/// size of the first `n` columns.
pub open spec fn spec_first_positions(
    domains: Seq<CircleDomain>,
    values: Seq<Seq<QM31>>,
    queries: Seq<usize>,
    log_domain_size: nat,
    n: nat,
) -> Map<u32, Seq<usize>>
    decreases n,
{
    if n == 0 {
        Map::empty()
    } else {
        spec_first_positions(domains, values, queries, log_domain_size, (n - 1) as nat).insert(
            domains[n - 1].spec_log_size() as u32,
            spec_witness_evals(
                values[n - 1],
                spec_fold_positions(
                    queries,
                    (log_domain_size - domains[n - 1].spec_log_size()) as nat,
                ),
                spec_witness_start(),
            ).positions,
        )
    }
}

/// The first layer of the prover: all the columns and the tree over their coordinates.
pub struct FriFirstLayerProver<'a, H: MerkleHasher> {
    pub columns: &'a Vec<SecureEvaluation>,
    pub merkle_tree: MerkleProver<H>,
}

impl<'a, H: MerkleHasher> FriFirstLayerProver<'a, H> {
    /// The columns are valid, their sizes descend, and the tree commits to
    /// their coordinate columns.
    pub open spec fn wf(self) -> bool {
        &&& self.columns.len() >= 1
        &&& forall|i: int|
            0 <= i < self.columns.len() ==> {
                &&& (#[trigger] self.columns[i]).wf()
                &&& self.columns[i].domain.spec_log_size() <= self.columns[0].domain.spec_log_size()
            }
        &&& self.columns[0].domain.spec_log_size() <= 30
        &&& self.merkle_tree.layers.len() == self.columns[0].domain.spec_log_size() + 1
        &&& self.merkle_tree.spec_commits_to(spec_coordinate_columns(self.columns@))
    }

    /// Whether the sizes of the columns allow a tree of `2^max_log_size` leaves.
    pub open spec fn spec_columns_fit(columns: Seq<SecureEvaluation>) -> bool {
        &&& columns.len() >= 1
        &&& forall|i: int|
            0 <= i < columns.len() ==> {
                &&& (#[trigger] columns[i]).wf()
                &&& columns[i].domain.spec_log_size() <= columns[0].domain.spec_log_size()
            }
        &&& columns[0].domain.spec_log_size() <= 30
    }

    pub fn new(columns: &'a Vec<SecureEvaluation>) -> (r: FriFirstLayerProver<'a, H>)
        requires
            Self::spec_columns_fit(columns@),
        ensures
            r.columns == columns,
            r.wf(),
    {
        let coordinate_columns = extract_coordinate_columns(columns);
        let max_log_size = columns[0].domain.log_size();
        proof {
            let cols = spec_columns(coordinate_columns@);
            assert forall|k: int| 0 <= k < cols.len() implies crate::prover::vcs::merkle_prover::spec_column_fits(
                #[trigger] cols[k],
                max_log_size as nat,
            ) by {
                let column = columns[k / 4];
                assert(column.wf());
                column.values.lemma_lengths();
                assert(column.values.spec_column(k % 4).len() == column.values@.len());
                assert(cols[k].len() == pow2(column.domain.spec_log_size()));
            }
        }
        let merkle_tree = MerkleProver::<H>::commit(&coordinate_columns, max_log_size);
        FriFirstLayerProver { columns, merkle_tree }
    }

    /// The logarithms of the sizes of the domains of the columns.
    pub fn column_log_sizes(&self) -> (r: Vec<u32>)
        ensures
            r.len() == self.columns.len(),
            forall|i: int|
                0 <= i < r.len() ==> r[i] == (#[trigger] self.columns[i]).domain.spec_log_size(),
    {
        let mut out: Vec<u32> = Vec::with_capacity(self.columns.len());
        let mut i: usize = 0;
        while i < self.columns.len()
            invariant
                i <= self.columns.len(),
                out.len() == i,
                forall|k: int|
                    0 <= k < i ==> out[k] == (#[trigger] self.columns[k]).domain.spec_log_size(),
            decreases self.columns.len() - i,
        {
            out.push(self.columns[i].domain.log_size());
            i = i + 1;
        }
        out
    }

    /// The logarithm of the size of the largest domain.
    pub fn max_column_log_size(&self) -> (r: u32)
        requires
            self.wf(),
        ensures
            r == self.columns[0].domain.spec_log_size(),
    {
        self.columns[0].domain.log_size()
    }

    /// The proof of the first layer at the queries.
    pub fn decommit(self, queries: &Queries) -> (r: FriLayerProof<H>)
        requires
            self.wf(),
            queries.spec_log_domain_size() == self.columns[0].domain.spec_log_size(),
        ensures
            r.commitment == self.merkle_tree.layers[0][0],
            r.fri_witness@ == spec_first_witness(
                spec_column_domains(self.columns@),
                spec_column_values(self.columns@),
                queries@,
                queries.spec_log_domain_size(),
                self.columns.len() as nat,
            ),
            ({
                let opened = spec_decommit_layers::<H>(
                    spec_coordinate_columns(self.columns@),
                    self.merkle_tree.spec_max_log_size(),
                    spec_first_positions(
                        spec_column_domains(self.columns@),
                        spec_column_values(self.columns@),
                        queries@,
                        queries.spec_log_domain_size(),
                        self.columns.len() as nat,
                    ),
                    self.merkle_tree.spec_max_log_size() as int,
                    spec_decommit_start::<H>(),
                );
                &&& r.decommitment.hash_witness@ == opened.hash_witness
                &&& r.decommitment.column_witness@ == opened.column_witness
            }),
    {
        broadcast use vstd::std_specs::btree::group_btree_axioms;

        queries.valid();
        let log_domain_size = queries.log_domain_size();
        let mut fri_witness: Vec<QM31> = Vec::new();
        let mut positions: BTreeMap<u32, Vec<usize>> = BTreeMap::new();
        let mut i: usize = 0;
        while i < self.columns.len()
            invariant
                i <= self.columns.len(),
                self.wf(),
                queries.wf(),
                log_domain_size == queries.spec_log_domain_size(),
                log_domain_size == self.columns[0].domain.spec_log_size(),
                spec_queries_fit(spec_positions(positions@), log_domain_size as nat),
                fri_witness@ == spec_first_witness(
                    spec_column_domains(self.columns@),
                    spec_column_values(self.columns@),
                    queries@,
                    log_domain_size as nat,
                    i as nat,
                ),
                spec_positions(positions@) == spec_first_positions(
                    spec_column_domains(self.columns@),
                    spec_column_values(self.columns@),
                    queries@,
                    log_domain_size as nat,
                    i as nat,
                ),
            decreases self.columns.len() - i,
        {
            let column = &self.columns[i];
            assert(column.wf());
            let column_log_size = column.domain.log_size();
            let column_queries = queries.fold(log_domain_size - column_log_size);
            column_queries.valid();
            proof {
                lemma_pow2_unfold(column_log_size as nat);
            }
            let (column_positions, column_witness) =
                compute_decommitment_positions_and_witness_evals(
                &column.values,
                column_queries.positions(),
                1,
            );
            let ghost before = spec_positions(positions@);
            let ghost inserted = column_positions@;
            positions.insert(column_log_size, column_positions);
            proof {
                assert(spec_positions(positions@) =~= before.insert(column_log_size, inserted));
            }
            let ghost head = fri_witness@;
            let mut k: usize = 0;
            while k < column_witness.len()
                invariant
                    k <= column_witness.len(),
                    fri_witness@ == head + column_witness@.subrange(0, k as int),
                decreases column_witness.len() - k,
            {
                fri_witness.push(column_witness[k]);
                proof {
                    assert(fri_witness@ =~= head + column_witness@.subrange(0, k + 1));
                }
                k = k + 1;
            }
            proof {
                assert(column_witness@.subrange(0, column_witness.len() as int)
                    =~= column_witness@);
            }
            i = i + 1;
        }
        let coordinate_columns = extract_coordinate_columns(self.columns);
        let (_evals, decommitment) = self.merkle_tree.decommit(&positions, &coordinate_columns);
        proof {
            lemma_pow2_pos(0);
        }
        let commitment = self.merkle_tree.root();
        FriLayerProof { fri_witness, decommitment, commitment }
    }
}

/// An inner layer of the prover: its evaluation and the tree over its coordinates.
pub struct FriInnerLayerProver<H: MerkleHasher> {
    pub evaluation: LineEvaluation,
    pub merkle_tree: MerkleProver<H>,
}

impl<H: MerkleHasher> FriInnerLayerProver<H> {
    /// The evaluation is valid and the tree commits to its coordinate columns.
    pub open spec fn wf(self) -> bool {
        &&& self.evaluation.wf()
        &&& 1 <= self.evaluation.domain.spec_log_size() <= 30
        &&& self.merkle_tree.layers.len() == self.evaluation.domain.spec_log_size() + 1
        &&& self.merkle_tree.spec_commits_to(spec_coordinates(self.evaluation.values))
    }

    pub fn new(evaluation: LineEvaluation) -> (r: FriInnerLayerProver<H>)
        requires
            evaluation.wf(),
            1 <= evaluation.domain.spec_log_size() <= 30,
        ensures
            r.evaluation == evaluation,
            r.wf(),
    {
        let log_size = evaluation.domain.log_size();
        let merkle_tree = {
            let columns = coordinates_of(&evaluation.values);
            proof {
                let cols = spec_columns(columns@);
                assert forall|k: int| 0 <= k < cols.len() implies crate::prover::vcs::merkle_prover::spec_column_fits(
                    #[trigger] cols[k],
                    log_size as nat,
                ) by {
                    assert(columns[k]@.len() == evaluation.values@.len());
                    assert(cols[k].len() == pow2(log_size as nat));
                }
            }
            MerkleProver::<H>::commit(&columns, log_size)
        };
        FriInnerLayerProver { evaluation, merkle_tree }
    }

    /// The proof of the layer at the queries.
    pub fn decommit(self, queries: &Queries) -> (r: FriLayerProof<H>)
        requires
            self.wf(),
            queries.spec_log_domain_size() == self.evaluation.domain.spec_log_size(),
        ensures
            r.commitment == self.merkle_tree.layers[0][0],
            ({
                let st = spec_witness_evals(
                    self.evaluation.values@,
                    queries@,
                    spec_witness_start(),
                );
                let opened = spec_decommit_layers::<H>(
                    spec_coordinates(self.evaluation.values),
                    self.merkle_tree.spec_max_log_size(),
                    Map::<u32, Seq<usize>>::empty().insert(
                        self.evaluation.domain.spec_log_size() as u32,
                        st.positions,
                    ),
                    self.merkle_tree.spec_max_log_size() as int,
                    spec_decommit_start::<H>(),
                );
                &&& r.fri_witness@ == st.witness
                &&& r.decommitment.hash_witness@ == opened.hash_witness
                &&& r.decommitment.column_witness@ == opened.column_witness
            }),
    {
        broadcast use vstd::std_specs::btree::group_btree_axioms;

        queries.valid();
        proof {
            lemma_pow2_unfold(self.evaluation.domain.spec_log_size());
        }
        let (decommitment_positions, fri_witness) =
            compute_decommitment_positions_and_witness_evals(
            &self.evaluation.values,
            queries.positions(),
            1,
        );
        let layer_log_size = self.evaluation.domain.log_size();
        let mut positions: BTreeMap<u32, Vec<usize>> = BTreeMap::new();
        let ghost inserted = decommitment_positions@;
        positions.insert(layer_log_size, decommitment_positions);
        proof {
            assert(spec_positions(positions@) =~= Map::<u32, Seq<usize>>::empty().insert(
                layer_log_size,
                inserted,
            ));
            lemma_pow2_pos(0);
        }
        let columns = coordinates_of(&self.evaluation.values);
        let (_evals, decommitment) = self.merkle_tree.decommit(&positions, &columns);
        let commitment = self.merkle_tree.root();
        FriLayerProof { fri_witness, decommitment, commitment }
    }
}


/// Whether the proof is that of the first layer at the queries: the root
/// of its tree, the witness values of its columns, and what opens the tree
/// at the positions of the columns.
pub open spec fn spec_first_layer_opened<H: MerkleHasher>(
    prover: FriFirstLayerProver<'_, H>,
    queries: Seq<usize>,
    log_domain_size: nat,
    proof: FriLayerProof<H>,
) -> bool {
    let opened = spec_decommit_layers::<H>(
        spec_coordinate_columns(prover.columns@),
        prover.merkle_tree.spec_max_log_size(),
        spec_first_positions(
            spec_column_domains(prover.columns@),
            spec_column_values(prover.columns@),
            queries,
            log_domain_size,
            prover.columns.len() as nat,
        ),
        prover.merkle_tree.spec_max_log_size() as int,
        spec_decommit_start::<H>(),
    );
    &&& proof.commitment == prover.merkle_tree.layers[0][0]
    &&& proof.fri_witness@ == spec_first_witness(
        spec_column_domains(prover.columns@),
        spec_column_values(prover.columns@),
        queries,
        log_domain_size,
        prover.columns.len() as nat,
    )
    &&& proof.decommitment.hash_witness@ == opened.hash_witness
    &&& proof.decommitment.column_witness@ == opened.column_witness
}

/// Whether the proof is that of the inner layer at the queries: the root
/// of its tree, the witness values, and what opens the tree at the
/// positions of the queries and of their neighbours.
pub open spec fn spec_inner_layer_opened<H: MerkleHasher>(
    prover: FriInnerLayerProver<H>,
    queries: Seq<usize>,
    proof: FriLayerProof<H>,
) -> bool {
    let st = spec_witness_evals(prover.evaluation.values@, queries, spec_witness_start());
    let opened = spec_decommit_layers::<H>(
        spec_coordinates(prover.evaluation.values),
        prover.merkle_tree.spec_max_log_size(),
        Map::<u32, Seq<usize>>::empty().insert(
            prover.evaluation.domain.spec_log_size() as u32,
            st.positions,
        ),
        prover.merkle_tree.spec_max_log_size() as int,
        spec_decommit_start::<H>(),
    );
    &&& proof.commitment == prover.merkle_tree.layers[0][0]
    &&& proof.fri_witness@ == st.witness
    &&& proof.decommitment.hash_witness@ == opened.hash_witness
    &&& proof.decommitment.column_witness@ == opened.column_witness
}

/// Whether the proof is that of a first layer of columns with the given
/// domains and values, at the queries on the largest domain.
pub open spec fn spec_first_layer_proof<H: MerkleHasher>(
    domains: Seq<CircleDomain>,
    values: Seq<Seq<QM31>>,
    queries: Seq<usize>,
    proof: FriLayerProof<H>,
) -> bool {
    let log_size = domains[0].spec_log_size();
    let opened = spec_decommit_layers::<H>(
        spec_all_coordinate_seqs(values),
        log_size,
        spec_first_positions(domains, values, queries, log_size, domains.len()),
        log_size as int,
        spec_decommit_start::<H>(),
    );
    &&& proof.commitment == spec_first_layer_root::<H>(values, log_size)
    &&& proof.fri_witness@ == spec_first_witness(domains, values, queries, log_size, domains.len())
    &&& proof.decommitment.hash_witness@ == opened.hash_witness
    &&& proof.decommitment.column_witness@ == opened.column_witness
}

/// Whether the proof is that of an inner layer of `2^log_size` values at
/// the queries.
pub open spec fn spec_inner_layer_proof<H: MerkleHasher>(
    values: Seq<QM31>,
    log_size: nat,
    queries: Seq<usize>,
    proof: FriLayerProof<H>,
) -> bool {
    let st = spec_witness_evals(values, queries, spec_witness_start());
    let opened = spec_decommit_layers::<H>(
        spec_coordinate_seqs(values),
        log_size,
        Map::<u32, Seq<usize>>::empty().insert(log_size as u32, st.positions),
        log_size as int,
        spec_decommit_start::<H>(),
    );
    &&& proof.commitment == spec_layer_root::<H>(values, log_size)
    &&& proof.fri_witness@ == st.witness
    &&& proof.decommitment.hash_witness@ == opened.hash_witness
    &&& proof.decommitment.column_witness@ == opened.column_witness
}

/// What a valid first layer opens is the proof of its columns.
pub proof fn lemma_first_layer_proof<H: MerkleHasher>(
    prover: FriFirstLayerProver<'_, H>,
    queries: Seq<usize>,
    proof: FriLayerProof<H>,
)
    requires
        prover.wf(),
        spec_first_layer_opened(prover, queries, prover.columns[0].domain.spec_log_size(), proof),
    ensures
        spec_first_layer_proof::<H>(
            spec_column_domains(prover.columns@),
            spec_column_values(prover.columns@),
            queries,
            proof,
        ),
{
    let columns = prover.columns;
    lemma_pow2_pos(0);
    assert(prover.merkle_tree.layers[0]@ == crate::prover::vcs::merkle_prover::spec_tree_layer::<H>(
        spec_coordinate_columns(columns@),
        prover.merkle_tree.spec_max_log_size(),
        0,
    ));
    assert(spec_coordinate_columns(columns@) =~= spec_all_coordinate_seqs(
        spec_column_values(columns@),
    )) by {
        assert forall|i: int| 0 <= i < 4 * columns.len() implies spec_coordinate_columns(
            columns@,
        )[i] == spec_all_coordinate_seqs(spec_column_values(columns@))[i] by {
            assert(columns[i / 4].wf());
            columns[i / 4].values.lemma_coordinates();
        }
    }
}

/// What a valid inner layer opens is the proof of its values.
pub proof fn lemma_inner_layer_proof<H: MerkleHasher>(
    prover: FriInnerLayerProver<H>,
    queries: Seq<usize>,
    proof: FriLayerProof<H>,
)
    requires
        prover.wf(),
        spec_inner_layer_opened(prover, queries, proof),
    ensures
        spec_inner_layer_proof::<H>(
            prover.evaluation.values@,
            prover.evaluation.domain.spec_log_size(),
            queries,
            proof,
        ),
{
    lemma_pow2_pos(0);
    prover.evaluation.values.lemma_coordinates();
    assert(spec_coordinates(prover.evaluation.values) =~= spec_coordinate_seqs(
        prover.evaluation.values@,
    ));
    assert(prover.merkle_tree.layers[0]@ == crate::prover::vcs::merkle_prover::spec_tree_layer::<H>(
        spec_coordinates(prover.evaluation.values),
        prover.merkle_tree.spec_max_log_size(),
        0,
    ));
}

/// Whether the coefficients from the index `n` on are zero.
pub open spec fn spec_zero_from(coeffs: Seq<QM31>, n: nat) -> bool {
    forall|i: int| n <= i < coeffs.len() ==> coeffs[i] == QM31::spec_zero()
}

/// The four columns of the coordinates of the values.
pub open spec fn spec_coordinate_seqs(values: Seq<QM31>) -> Seq<Seq<M31>> {
    Seq::new(4, |k: int| Seq::new(values.len(), |i: int| values[i].spec_to_m31_array()[k]))
}

/// The root of the tree over the coordinates of the `2^log_size` values of
/// a layer.
pub open spec fn spec_layer_root<H: MerkleHasher>(values: Seq<QM31>, log_size: nat) -> H::Hash {
    crate::prover::vcs::merkle_prover::spec_tree_layer::<H>(
        spec_coordinate_seqs(values),
        log_size,
        0,
    )[0]
}

/// The domains of the columns.
pub open spec fn spec_column_domains(columns: Seq<SecureEvaluation>) -> Seq<CircleDomain> {
    Seq::new(columns.len(), |i: int| columns[i].domain)
}

/// The values of the columns.
pub open spec fn spec_column_values(columns: Seq<SecureEvaluation>) -> Seq<Seq<QM31>> {
    Seq::new(columns.len(), |i: int| columns[i].values@)
}

/// The coordinates of all the columns: four columns for each.
pub open spec fn spec_all_coordinate_seqs(values: Seq<Seq<QM31>>) -> Seq<Seq<M31>> {
    Seq::new(4 * values.len(), |i: int| spec_coordinate_seqs(values[i / 4])[i % 4])
}

/// The root of the tree over the coordinates of all the columns, the
/// largest of which has `2^log_size` values.
pub open spec fn spec_first_layer_root<H: MerkleHasher>(values: Seq<Seq<QM31>>, log_size: nat) -> H::Hash {
    crate::prover::vcs::merkle_prover::spec_tree_layer::<H>(
        spec_all_coordinate_seqs(values),
        log_size,
        0,
    )[0]
}

/// The transcript after `remaining` inner layers were committed, their
/// evaluations, and the evaluation that is left for the last layer. Each
/// layer commits to the tree of its evaluation and draws a folding
/// coefficient; the evaluation is folded onto the doubled domain, and the
/// column whose size is that of the layer, if it is the next one, is folded
/// in with the same coefficient.
pub open spec fn spec_commit_layers<MC: MerkleChannel>(
    channel: MC::C,
    eval: Seq<QM31>,
    domain: LineDomain,
    domains: Seq<CircleDomain>,
    values: Seq<Seq<QM31>>,
    next_column: nat,
    remaining: nat,
) -> (MC::C, Seq<Seq<QM31>>, Seq<QM31>)
    decreases remaining,
{
    if remaining == 0 {
        (channel, Seq::empty(), eval)
    } else {
        let root = spec_layer_root::<MC::H>(eval, domain.spec_log_size());
        let (after, alpha) = MC::spec_mix_root(channel, root).spec_draw_secure_felt();
        let folded = spec_fold_line(eval, domain, alpha);
        let takes = next_column < domains.len() && domains[next_column as int].spec_log_size()
            == domain.spec_log_size();
        let with_column = if takes {
            spec_fold_circle_into_line(
                folded,
                values[next_column as int],
                domains[next_column as int],
                alpha,
            )
        } else {
            folded
        };
        let (last_channel, rest, last) = spec_commit_layers::<MC>(
            after,
            with_column,
            domain.spec_double(),
            domains,
            values,
            if takes {
                next_column + 1
            } else {
                next_column
            },
            (remaining - 1) as nat,
        );
        (last_channel, seq![eval] + rest, last)
    }
}

/// The commitment stage up to the last layer: the tree over all the
/// columns is committed, the first folding coefficient is drawn, the
/// largest column is folded onto its line, and the inner layers follow,
/// down to the size of the last layer.
pub open spec fn spec_commit_stage<MC: MerkleChannel>(
    channel: MC::C,
    config: FriConfig,
    domains: Seq<CircleDomain>,
    values: Seq<Seq<QM31>>,
) -> (MC::C, Seq<Seq<QM31>>, Seq<QM31>) {
    let log_size = domains[0].spec_log_size();
    let (after, alpha) = MC::spec_mix_root(
        channel,
        spec_first_layer_root::<MC::H>(values, log_size),
    ).spec_draw_secure_felt();
    let first = spec_fold_circle_into_line(
        Seq::new(pow2((log_size - 1) as nat), |i: int| QM31::spec_zero()),
        values[0],
        domains[0],
        alpha,
    );
    spec_commit_layers::<MC>(
        after,
        first,
        LineDomain::spec_from_circle_domain(domains[0]),
        domains,
        values,
        1,
        (log_size - 1 - (config.log_last_layer_degree_bound + config.log_blowup_factor)) as nat,
    )
}

/// The coefficients of the last layer in their natural order.
pub open spec fn spec_last_layer_coeffs(last: Seq<QM31>, domain: LineDomain) -> Seq<QM31> {
    spec_bit_reversed(spec_interpolate(last, domain), domain.spec_log_size())
}

/// A FRI prover after the commitment stage.
pub struct FriProver<'a, MC: MerkleChannel> {
    pub config: FriConfig,
    pub first_layer: FriFirstLayerProver<'a, MC::H>,
    pub inner_layers: Vec<FriInnerLayerProver<MC::H>>,
    pub last_layer_poly: LinePoly,
}

impl<'a, MC: MerkleChannel> FriProver<'a, MC> {
    /// The layers are valid, each on a domain half as large as the one
    /// before, from half the domain of the largest column on.
    pub open spec fn wf(self) -> bool {
        &&& self.config.wf()
        &&& self.first_layer.wf()
        &&& forall|k: int|
            0 <= k < self.inner_layers.len() ==> {
                &&& (#[trigger] self.inner_layers[k]).wf()
                &&& self.inner_layers[k].evaluation.domain.spec_log_size()
                    == self.first_layer.columns[0].domain.spec_log_size() - 1 - k
            }
        &&& self.last_layer_poly.wf()
    }

    /// What the commitment stage asks of the columns: there is one, their
    /// domains are canonic and strictly descend in size, and half the
    /// largest is no smaller than the domain of the last layer.
    pub open spec fn spec_columns_fit(config: FriConfig, columns: Seq<SecureEvaluation>) -> bool {
        &&& config.wf()
        &&& columns.len() >= 1
        &&& forall|i: int|
            0 <= i < columns.len() ==> {
                &&& (#[trigger] columns[i]).wf()
                &&& columns[i].domain.spec_is_canonic()
            }
        &&& forall|i: int, j: int|
            0 <= i < j < columns.len() ==> columns[i].domain.spec_log_size()
                > columns[j].domain.spec_log_size()
        &&& columns[0].domain.spec_log_size() <= 30
        &&& columns[0].domain.spec_log_size() - 1 >= config.log_last_layer_degree_bound
            + config.log_blowup_factor
    }

    /// Commits to the columns, which come in descending order of size, at
    /// most one of each size: the first layer commits to all of them, each
    /// inner layer to the fold of the layer before, into which the column of
    /// its size is folded too, and the last layer is sent as a polynomial.
    /// `None` exactly where that polynomial exceeds the degree bound of
    /// the last layer; the transcript then stands after the inner layers.
    pub fn commit<B: FriOps>(
        channel: &mut MC::C,
        config: FriConfig,
        columns: &'a Vec<SecureEvaluation>,
    ) -> (r: Option<FriProver<'a, MC>>)
        requires
            Self::spec_columns_fit(config, columns@),
        ensures
            ({
                let (after, layers, last) = spec_commit_stage::<MC>(
                    *old(channel),
                    config,
                    spec_column_domains(columns@),
                    spec_column_values(columns@),
                );
                let last_domain = spec_line_layer_domain(columns[0].domain, layers.len());
                let coeffs = spec_last_layer_coeffs(last, last_domain);
                let bound = pow2(config.log_last_layer_degree_bound as nat);
                &&& r.is_some() == spec_zero_from(coeffs, bound)
                &&& match r {
                    Some(prover) => {
                        &&& prover.wf()
                        &&& prover.config == config
                        &&& prover.first_layer.columns == columns
                        &&& prover.inner_layers.len() == columns[0].domain.spec_log_size() - 1 - (
                        config.log_last_layer_degree_bound + config.log_blowup_factor)
                        &&& prover.inner_layers.len() == layers.len()
                        &&& forall|k: int|
                            0 <= k < layers.len() ==> {
                                &&& (#[trigger] prover.inner_layers[k]).evaluation.values@
                                    == layers[k]
                                &&& prover.inner_layers[k].evaluation.domain
                                    == spec_line_layer_domain(columns[0].domain, k as nat)
                            }
                        &&& prover.last_layer_poly@.len() == bound
                        &&& prover.last_layer_poly@ == spec_bit_reversed(
                            coeffs.subrange(0, bound as int),
                            config.log_last_layer_degree_bound as nat,
                        )
                        &&& *final(channel) == after.spec_mix_felts(prover.last_layer_poly@)
                    },
                    None => *final(channel) == after,
                }
            }),
    {
        assert(columns[0].wf());
        let first_layer = Self::commit_first_layer(channel, columns);
        let (inner_layers, last_layer_evaluation) = Self::commit_inner_layers::<B>(
            channel,
            config,
            columns,
        );
        match Self::commit_last_layer(channel, config, last_layer_evaluation) {
            None => None,
            Some(last_layer_poly) => {
                let prover = FriProver { config, first_layer, inner_layers, last_layer_poly };
                assert(prover.first_layer.wf());
                assert(prover.last_layer_poly.wf());
                assert(prover.wf());
                assert(prover.last_layer_poly@.len() == pow2(
                    config.log_last_layer_degree_bound as nat,
                ));
                Some(prover)
            },
        }
    }

    /// Commits to the first layer: the tree over all the columns.
    fn commit_first_layer(channel: &mut MC::C, columns: &'a Vec<SecureEvaluation>) -> (r:
        FriFirstLayerProver<'a, MC::H>)
        requires
            FriFirstLayerProver::<MC::H>::spec_columns_fit(columns@),
        ensures
            r.columns == columns,
            r.wf(),
            *final(channel) == MC::spec_mix_root(*old(channel), r.merkle_tree.layers[0][0]),
            r.merkle_tree.layers[0][0] == spec_first_layer_root::<MC::H>(
                spec_column_values(columns@),
                columns[0].domain.spec_log_size(),
            ),
    {
        let layer = FriFirstLayerProver::<MC::H>::new(columns);
        proof {
            lemma_pow2_pos(0);
            assert(layer.merkle_tree.layers[0]@
                == crate::prover::vcs::merkle_prover::spec_tree_layer::<MC::H>(
                spec_coordinate_columns(columns@),
                layer.merkle_tree.spec_max_log_size(),
                0,
            ));
            assert(spec_coordinate_columns(columns@) =~= spec_all_coordinate_seqs(
                spec_column_values(columns@),
            )) by {
                assert forall|i: int| 0 <= i < 4 * columns.len() implies spec_coordinate_columns(
                    columns@,
                )[i] == spec_all_coordinate_seqs(spec_column_values(columns@))[i] by {
                    assert(columns[i / 4].wf());
                    columns[i / 4].values.lemma_coordinates();
                }
            }
        }
        MC::mix_root(channel, layer.merkle_tree.root());
        layer
    }

    /// Builds and commits to the inner layers, and returns them with the
    /// evaluation of the last layer. The transcript must stand after the
    /// commitment to the first layer.
    fn commit_inner_layers<B: FriOps>(
        channel: &mut MC::C,
        config: FriConfig,
        columns: &Vec<SecureEvaluation>,
    ) -> (r: (Vec<FriInnerLayerProver<MC::H>>, LineEvaluation))
        requires
            Self::spec_columns_fit(config, columns@),
        ensures
            r.1.wf(),
            r.1.domain.spec_log_size() == config.log_last_layer_degree_bound
                + config.log_blowup_factor,
            r.0.len() == columns[0].domain.spec_log_size() - 1 - (config.log_last_layer_degree_bound
                + config.log_blowup_factor),
            forall|k: int|
                0 <= k < r.0.len() ==> {
                    &&& (#[trigger] r.0[k]).wf()
                    &&& r.0[k].evaluation.domain.spec_log_size()
                        == columns[0].domain.spec_log_size() - 1 - k
                },
            ({
                let log_size = columns[0].domain.spec_log_size();
                let (after, alpha) = old(channel).spec_draw_secure_felt();
                let first = spec_fold_circle_into_line(
                    Seq::new(pow2((log_size - 1) as nat), |i: int| QM31::spec_zero()),
                    columns[0].values@,
                    columns[0].domain,
                    alpha,
                );
                let (last_channel, layers, last) = spec_commit_layers::<MC>(
                    after,
                    first,
                    LineDomain::spec_from_circle_domain(columns[0].domain),
                    spec_column_domains(columns@),
                    spec_column_values(columns@),
                    1,
                    (log_size - 1 - (config.log_last_layer_degree_bound
                        + config.log_blowup_factor)) as nat,
                );
                &&& *final(channel) == last_channel
                &&& r.0.len() == layers.len()
                &&& forall|k: int|
                    0 <= k < layers.len() ==> {
                        &&& (#[trigger] r.0[k]).evaluation.values@ == layers[k]
                        &&& r.0[k].evaluation.domain == spec_line_layer_domain(
                            columns[0].domain,
                            k as nat,
                        )
                    }
                &&& r.1.values@ == last
                &&& r.1.domain == spec_line_layer_domain(columns[0].domain, layers.len())
            }),
    {
        assert(columns[0].wf());
        let first_domain = LineDomain::from_circle_domain(columns[0].domain);
        let last_log_size = config.log_last_layer_degree_bound + config.log_blowup_factor;
        let mut layer_evaluation = LineEvaluation::new_zero(first_domain);
        let mut next_column: usize = 1;
        let mut layers: Vec<FriInnerLayerProver<MC::H>> = Vec::new();
        let folding_alpha = channel.draw_secure_felt();
        proof {
            lemma_pow2_unfold(columns[0].domain.spec_log_size());
        }
        B::fold_circle_into_line(&mut layer_evaluation, &columns[0], folding_alpha);
        let ghost total = spec_commit_layers::<MC>(
            *channel,
            layer_evaluation.values@,
            first_domain,
            spec_column_domains(columns@),
            spec_column_values(columns@),
            1,
            (columns[0].domain.spec_log_size() - 1 - last_log_size) as nat,
        );
        let ghost mut done: Seq<Seq<QM31>> = Seq::empty();
        proof {
            assert(done + total.1 =~= total.1);
        }
        while layer_evaluation.domain().log_size() > last_log_size
            invariant
                Self::spec_columns_fit(config, columns@),
                last_log_size == config.log_last_layer_degree_bound + config.log_blowup_factor,
                layer_evaluation.wf(),
                1 <= next_column <= columns.len(),
                last_log_size <= layer_evaluation.domain.spec_log_size(),
                layer_evaluation.domain.spec_log_size() == columns[0].domain.spec_log_size() - 1
                    - layers.len(),
                layer_evaluation.domain == spec_line_layer_domain(
                    columns[0].domain,
                    layers.len() as nat,
                ),
                done.len() == layers.len(),
                forall|k: int|
                    0 <= k < layers.len() ==> {
                        &&& (#[trigger] layers[k]).wf()
                        &&& layers[k].evaluation.domain.spec_log_size()
                            == columns[0].domain.spec_log_size() - 1 - k
                        &&& layers[k].evaluation.values@ == done[k]
                        &&& layers[k].evaluation.domain == spec_line_layer_domain(
                            columns[0].domain,
                            k as nat,
                        )
                    },
                ({
                    let (last_channel, rest, last) = spec_commit_layers::<MC>(
                        *channel,
                        layer_evaluation.values@,
                        layer_evaluation.domain,
                        spec_column_domains(columns@),
                        spec_column_values(columns@),
                        next_column as nat,
                        (layer_evaluation.domain.spec_log_size() - last_log_size) as nat,
                    );
                    total == (last_channel, done + rest, last)
                }),
            decreases layer_evaluation.domain.spec_log_size(),
        {
            let ghost values = layer_evaluation.values@;
            let ghost domain = layer_evaluation.domain;
            let ghost head_channel = *channel;
            let ghost remaining = (domain.spec_log_size() - last_log_size) as nat;
            let ghost at_head = spec_commit_layers::<MC>(
                head_channel,
                values,
                domain,
                spec_column_domains(columns@),
                spec_column_values(columns@),
                next_column as nat,
                remaining,
            );
            let layer = FriInnerLayerProver::<MC::H>::new(layer_evaluation);
            proof {
                lemma_pow2_pos(0);
                layer.evaluation.values.lemma_coordinates();
                assert(spec_coordinates(layer.evaluation.values) =~= spec_coordinate_seqs(values));
                assert(layer.merkle_tree.layers[0]@
                    == crate::prover::vcs::merkle_prover::spec_tree_layer::<MC::H>(
                    spec_coordinates(layer.evaluation.values),
                    layer.merkle_tree.spec_max_log_size(),
                    0,
                ));
                assert(layer.merkle_tree.layers[0][0] == spec_layer_root::<MC::H>(
                    values,
                    domain.spec_log_size(),
                ));
            }
            MC::mix_root(channel, layer.merkle_tree.root());
            let folding_alpha = channel.draw_secure_felt();
            layer_evaluation = B::fold_line(&layer.evaluation, folding_alpha);
            let ghost next_before = next_column;
            // The column of the first layer that has the size of this layer.
            if next_column < columns.len() {
                let column = &columns[next_column];
                assert(column.wf());
                if column.domain.log_size() == layer_evaluation.domain().log_size() + 1 {
                    proof {
                        lemma_pow2_unfold(column.domain.spec_log_size());
                    }
                    B::fold_circle_into_line(&mut layer_evaluation, column, folding_alpha);
                    next_column = next_column + 1;
                }
            }
            proof {
                let rest = spec_commit_layers::<MC>(
                    *channel,
                    layer_evaluation.values@,
                    layer_evaluation.domain,
                    spec_column_domains(columns@),
                    spec_column_values(columns@),
                    next_column as nat,
                    (remaining - 1) as nat,
                );
                assert(at_head == (rest.0, seq![values] + rest.1, rest.2));
                assert(done + (seq![values] + rest.1) =~= done.push(values) + rest.1);
                done = done.push(values);
            }
            layers.push(layer);
        }
        proof {
            assert(done + Seq::<Seq<QM31>>::empty() =~= done);
        }
        (layers, layer_evaluation)
    }

    /// Commits to the last layer by its coefficients. `None` if those
    /// beyond the degree bound are not zero.
    fn commit_last_layer(channel: &mut MC::C, config: FriConfig, evaluation: LineEvaluation) -> (r:
        Option<LinePoly>)
        requires
            config.wf(),
            evaluation.wf(),
            evaluation.domain.spec_log_size() == config.log_last_layer_degree_bound
                + config.log_blowup_factor,
        ensures
            ({
                let coeffs = spec_bit_reversed(
                    spec_interpolate(evaluation.values@, evaluation.domain),
                    evaluation.domain.spec_log_size(),
                );
                let bound = pow2(config.log_last_layer_degree_bound as nat);
                match r {
                    Some(poly) => {
                        &&& spec_zero_from(coeffs, bound)
                        &&& poly.wf()
                        &&& poly@ == spec_bit_reversed(
                            coeffs.subrange(0, bound as int),
                            config.log_last_layer_degree_bound as nat,
                        )
                        &&& poly@.len() == bound
                        &&& *final(channel) == old(channel).spec_mix_felts(poly@)
                    },
                    None => !spec_zero_from(coeffs, bound) && *final(channel) == *old(channel),
                }
            }),
    {
        let ghost log_size = evaluation.domain.spec_log_size();
        let ghost expected = spec_bit_reversed(
            spec_interpolate(evaluation.values@, evaluation.domain),
            log_size,
        );
        let coeffs = evaluation.interpolate().into_ordered_coefficients();
        let last_layer_degree_bound = pow2_usize(config.log_last_layer_degree_bound);
        proof {
            lemma_pow2_monotone(config.log_last_layer_degree_bound as nat, log_size);
        }
        let mut i: usize = last_layer_degree_bound;
        while i < coeffs.len()
            invariant
                last_layer_degree_bound <= i,
                coeffs@ == expected,
                last_layer_degree_bound == pow2(config.log_last_layer_degree_bound as nat),
                expected == spec_bit_reversed(
                    spec_interpolate(evaluation.values@, evaluation.domain),
                    evaluation.domain.spec_log_size(),
                ),
                forall|k: int|
                    last_layer_degree_bound <= k < i && k < coeffs.len() ==> coeffs[k]
                        == QM31::spec_zero(),
            decreases coeffs.len() - i,
        {
            if !coeffs[i].is_zero() {
                assert(expected[i as int] != QM31::spec_zero());
                return None;
            }
            i = i + 1;
        }
        let mut kept: Vec<QM31> = Vec::with_capacity(last_layer_degree_bound);
        let mut k: usize = 0;
        while k < last_layer_degree_bound
            invariant
                k <= last_layer_degree_bound <= coeffs.len(),
                kept@ == coeffs@.subrange(0, k as int),
            decreases last_layer_degree_bound - k,
        {
            kept.push(coeffs[k]);
            proof {
                assert(kept@ =~= coeffs@.subrange(0, k + 1));
            }
            k = k + 1;
        }
        let last_layer_poly = LinePoly::from_ordered_coefficients(kept);
        proof {
            crate::poly::line::lemma_log_size_of_len(
                last_layer_poly,
                config.log_last_layer_degree_bound as nat,
            );
        }
        channel.mix_felts(last_layer_poly.coeffs());
        Some(last_layer_poly)
    }

    /// Samples the queries from the transcript and opens the layers at
    /// them. With the proof come the positions of the queries by the size of
    /// the columns.
    pub fn decommit(self, channel: &mut MC::C) -> (r: (FriProof<MC::H>, BTreeMap<u32, Vec<usize>>))
        requires
            self.wf(),
            self.config.n_queries >= 1,
        ensures
            ({
                let (after, positions) = spec_generate(
                    *old(channel),
                    self.first_layer.columns[0].domain.spec_log_size(),
                    Seq::empty(),
                    self.config.n_queries as nat,
                );
                &&& *final(channel) == after
                &&& spec_positions(r.1@) == spec_query_positions(
                    positions,
                    self.first_layer.columns[0].domain.spec_log_size(),
                    crate::fri::verification::spec_domain_log_sizes(
                        Seq::new(
                            self.first_layer.columns.len() as nat,
                            |i: int| self.first_layer.columns[i].domain,
                        ),
                    ),
                )
            }),
            ({
                let log_size = self.first_layer.columns[0].domain.spec_log_size();
                let queries = spec_generate(
                    *old(channel),
                    log_size,
                    Seq::empty(),
                    self.config.n_queries as nat,
                ).1;
                &&& spec_first_layer_opened(self.first_layer, queries, log_size, r.0.first_layer)
                &&& forall|k: int|
                    0 <= k < r.0.inner_layers.len() ==> spec_inner_layer_opened(
                        self.inner_layers[k],
                        spec_fold_positions(queries, (k + 1) as nat),
                        #[trigger] r.0.inner_layers[k],
                    )
            }),
            r.0.inner_layers.len() == self.inner_layers.len(),
            r.0.last_layer_poly == self.last_layer_poly,
    {
        let max_column_log_size = self.first_layer.max_column_log_size();
        let queries = Queries::generate(channel, max_column_log_size, self.config.n_queries);
        let column_log_sizes = self.first_layer.column_log_sizes();
        proof {
            assert forall|i: int| 0 <= i < column_log_sizes.len() implies column_log_sizes[i]
                <= queries.spec_log_domain_size() by {
                assert(self.first_layer.columns[i].wf());
            }
            assert(column_log_sizes@ =~= crate::fri::verification::spec_domain_log_sizes(
                Seq::new(
                    self.first_layer.columns.len() as nat,
                    |i: int| self.first_layer.columns[i].domain,
                ),
            ));
        }
        let query_positions_by_log_size = get_query_positions_by_log_size(
            &queries,
            &column_log_sizes,
        );
        let proof = self.decommit_on_queries(&queries);
        (proof, query_positions_by_log_size)
    }

    /// Opens the layers at the queries, which are on the domain of the
    /// largest column.
    pub fn decommit_on_queries(self, queries: &Queries) -> (r: FriProof<MC::H>)
        requires
            self.wf(),
            queries.spec_log_domain_size() == self.first_layer.columns[0].domain.spec_log_size(),
        ensures
            spec_first_layer_opened(
                self.first_layer,
                queries@,
                queries.spec_log_domain_size(),
                r.first_layer,
            ),
            forall|k: int|
                0 <= k < r.inner_layers.len() ==> spec_inner_layer_opened(
                    self.inner_layers[k],
                    spec_fold_positions(queries@, (k + 1) as nat),
                    #[trigger] r.inner_layers[k],
                ),
            r.first_layer.commitment == self.first_layer.merkle_tree.layers[0][0],
            r.inner_layers.len() == self.inner_layers.len(),
            forall|k: int|
                0 <= k < r.inner_layers.len() ==> {
                    &&& (#[trigger] r.inner_layers[k]).commitment
                        == self.inner_layers[k].merkle_tree.layers[0][0]
                    &&& r.inner_layers[k].fri_witness@ == spec_witness_evals(
                        self.inner_layers[k].evaluation.values@,
                        spec_fold_positions(queries@, (k + 1) as nat),
                        spec_witness_start(),
                    ).witness
                },
            r.last_layer_poly == self.last_layer_poly,
    {
        let FriProver { config: _, first_layer, inner_layers, last_layer_poly } = self;
        let ghost layers = inner_layers@;
        let ghost max_log = queries.spec_log_domain_size();
        queries.valid();
        let first_layer_proof = first_layer.decommit(queries);
        let mut reversed = inner_layers;
        let n = reversed.len();
        reverse_provers::<MC::H>(&mut reversed);
        let mut inner_layer_proofs: Vec<FriLayerProof<MC::H>> = Vec::with_capacity(n);
        let mut layer_queries = queries.fold(1);
        let mut k: usize = 0;
        while k < n
            invariant
                k <= n,
                n == layers.len(),
                queries.wf(),
                max_log == queries.spec_log_domain_size(),
                reversed.len() == n - k,
                forall|j: int| 0 <= j < reversed.len() ==> reversed[j] == layers[n - 1 - j],
                forall|j: int|
                    0 <= j < layers.len() ==> {
                        &&& (#[trigger] layers[j]).wf()
                        &&& layers[j].evaluation.domain.spec_log_size() == max_log - 1 - j
                    },
                layer_queries.wf(),
                k < n ==> layer_queries@ == spec_fold_positions(queries@, (k + 1) as nat),
                k < n ==> layer_queries.spec_log_domain_size() == max_log - 1 - k,
                inner_layer_proofs.len() == k,
                forall|j: int|
                    0 <= j < k ==> spec_inner_layer_opened(
                        layers[j],
                        spec_fold_positions(queries@, (j + 1) as nat),
                        #[trigger] inner_layer_proofs[j],
                    ),
                forall|j: int|
                    0 <= j < k ==> {
                        &&& (#[trigger] inner_layer_proofs[j]).commitment
                            == layers[j].merkle_tree.layers[0][0]
                        &&& inner_layer_proofs[j].fri_witness@ == spec_witness_evals(
                            layers[j].evaluation.values@,
                            spec_fold_positions(queries@, (j + 1) as nat),
                            spec_witness_start(),
                        ).witness
                    },
            decreases n - k,
        {
            let layer = reversed.pop().unwrap();
            assert(layer == layers[k as int]);
            let layer_proof = layer.decommit(&layer_queries);
            inner_layer_proofs.push(layer_proof);
            proof {
                crate::queries::lemma_fold_twice(queries@, (k + 1) as nat, 1);
            }
            if k + 1 < n {
                assert(layers[k + 1].wf());
                layer_queries = layer_queries.fold(1);
            }
            k = k + 1;
        }
        FriProof {
            first_layer: first_layer_proof,
            inner_layers: inner_layer_proofs,
            last_layer_poly,
        }
    }
}

/// Reverses the order of the layers.
fn reverse_provers<H: MerkleHasher>(layers: &mut Vec<FriInnerLayerProver<H>>)
    ensures
        final(layers).len() == old(layers).len(),
        forall|j: int|
            0 <= j < old(layers).len() ==> final(layers)[j] == old(layers)[old(layers).len() - 1
                - j],
{
    let mut out: Vec<FriInnerLayerProver<H>> = Vec::new();
    let ghost n = layers.len();
    while layers.len() > 0
        invariant
            layers.len() + out.len() == n,
            n == old(layers).len(),
            forall|j: int| 0 <= j < layers.len() ==> layers[j] == old(layers)[j],
            forall|j: int| 0 <= j < out.len() ==> out[j] == old(layers)[n - 1 - j],
        decreases layers.len(),
    {
        let last = layers.pop().unwrap();
        out.push(last);
    }
    *layers = out;
}

} // verus!
