//! The pairs of values that a fold needs at the queried positions: those
//! that the verifier knows from the layer before, and those that the proof
//! supplies.

use vstd::prelude::*;
use vstd::arithmetic::power2::pow2;
use crate::fields::m31::M31;
use crate::fields::qm31::QM31;
use crate::fri::fold::{
    fold_circle_pair, fold_pair, spec_fold_circle_pair, spec_fold_pair,
};
use crate::poly::domain::CircleDomain;
use crate::poly::line::LineDomain;
use crate::queries::{lemma_fold_run, spec_fold_positions};
use crate::utils::{bit_reverse_index, spec_bit_reverse_index};

verus! {

/// The two values of a polynomial on a pair of points that fold into one,
/// and the index in the domain of the first of the two points.
#[derive(Copy, Clone, Debug, PartialEq, Eq, Structural)]
pub struct FoldSubset {
    pub first: QM31,
    pub second: QM31,
    pub domain_initial_index: usize,
}

/// The proof ran out of values.
#[derive(Copy, Clone, Debug, PartialEq, Eq, Structural)]
pub struct InsufficientWitnessError;

/// The pairs at the queried positions of one layer.
pub struct SparseEvaluation {
    pub subsets: Vec<FoldSubset>,
}

/// How far a rebuilding of pairs has read, and what it has built.
pub struct RebuildState {
    /// The next query.
    pub query_at: nat,
    /// The next value at a query.
    pub eval_at: nat,
    /// The next value of the witness.
    pub witness_at: nat,
    /// The positions to decommit, two for each pair.
    pub positions: Seq<usize>,
    /// The pairs.
    pub subsets: Seq<FoldSubset>,
}

/// The first query, from `at` on, outside the pair `key`.
pub open spec fn spec_chunk_end(queries: Seq<usize>, at: nat, key: usize) -> nat
    decreases queries.len() - at,
{
    if at < queries.len() && queries[at as int] / 2 == key {
        spec_chunk_end(queries, at + 1, key)
    } else {
        at
    }
}

pub proof fn lemma_chunk_end(queries: Seq<usize>, at: nat, key: usize)
    requires
        at <= queries.len(),
    ensures
        at <= spec_chunk_end(queries, at, key) <= queries.len(),
    decreases queries.len() - at,
{
    if at < queries.len() && queries[at as int] / 2 == key {
        lemma_chunk_end(queries, at + 1, key);
    }
}

/// The value at `position`: that at the next query of the pair if the query
/// is this position, else the next value of the witness, if there is one.
/// With it, the cursors after the value was taken.
pub open spec fn spec_pick(
    queries: Seq<usize>,
    query_evals: Seq<QM31>,
    witness: Seq<QM31>,
    chunk_end: nat,
    cursor: nat,
    eval_at: nat,
    witness_at: nat,
    position: int,
) -> Option<(QM31, nat, nat, nat)> {
    if cursor < chunk_end && queries[cursor as int] == position {
        Some((query_evals[eval_at as int], cursor + 1, eval_at + 1, witness_at))
    } else if witness_at < witness.len() {
        Some((witness[witness_at as int], cursor, eval_at, witness_at + 1))
    } else {
        None
    }
}

/// The rest of the pairs, from the state `st` on: the queries are grouped
/// by the pair in which they lie, and each pair is completed from the
/// witness. `None` where the witness runs out.
pub open spec fn spec_rebuild(
    queries: Seq<usize>,
    log_domain_size: nat,
    query_evals: Seq<QM31>,
    witness: Seq<QM31>,
    st: RebuildState,
) -> Option<RebuildState>
    decreases queries.len() - st.query_at,
    via spec_rebuild_decreases
{
    if st.query_at >= queries.len() {
        Some(st)
    } else {
        let key = (queries[st.query_at as int] / 2) as usize;
        let start = 2 * key;
        let end = spec_chunk_end(queries, st.query_at + 1, key);
        match spec_pick(
            queries,
            query_evals,
            witness,
            end,
            st.query_at,
            st.eval_at,
            st.witness_at,
            start,
        ) {
            None => None,
            Some((first, c1, e1, w1)) => match spec_pick(
                queries,
                query_evals,
                witness,
                end,
                c1,
                e1,
                w1,
                start + 1,
            ) {
                None => None,
                Some((second, c2, e2, w2)) => spec_rebuild(
                    queries,
                    log_domain_size,
                    query_evals,
                    witness,
                    RebuildState {
                        query_at: end,
                        eval_at: e2,
                        witness_at: w2,
                        positions: st.positions.push(start as usize).push((start + 1) as usize),
                        subsets: st.subsets.push(
                            FoldSubset {
                                first,
                                second,
                                domain_initial_index: spec_bit_reverse_index(
                                    start as nat,
                                    log_domain_size,
                                ) as usize,
                            },
                        ),
                    },
                ),
            },
        }
    }
}

#[via_fn]
proof fn spec_rebuild_decreases(
    queries: Seq<usize>,
    log_domain_size: nat,
    query_evals: Seq<QM31>,
    witness: Seq<QM31>,
    st: RebuildState,
) {
    if st.query_at < queries.len() {
        let key = (queries[st.query_at as int] / 2) as usize;
        lemma_chunk_end(queries, st.query_at + 1, key);
    }
}

/// One group of queries.
pub proof fn lemma_rebuild_unfold(
    queries: Seq<usize>,
    log_domain_size: nat,
    query_evals: Seq<QM31>,
    witness: Seq<QM31>,
    st: RebuildState,
)
    requires
        st.query_at < queries.len(),
    ensures
        spec_rebuild(queries, log_domain_size, query_evals, witness, st) == ({
            let key = (queries[st.query_at as int] / 2) as usize;
            let start = 2 * key;
            let end = spec_chunk_end(queries, st.query_at + 1, key);
            match spec_pick(
                queries,
                query_evals,
                witness,
                end,
                st.query_at,
                st.eval_at,
                st.witness_at,
                start,
            ) {
                None => None,
                Some((first, c1, e1, w1)) => match spec_pick(
                    queries,
                    query_evals,
                    witness,
                    end,
                    c1,
                    e1,
                    w1,
                    start + 1,
                ) {
                    None => None,
                    Some((second, c2, e2, w2)) => spec_rebuild(
                        queries,
                        log_domain_size,
                        query_evals,
                        witness,
                        RebuildState {
                            query_at: end,
                            eval_at: e2,
                            witness_at: w2,
                            positions: st.positions.push(start as usize).push((start + 1) as usize),
                            subsets: st.subsets.push(
                                FoldSubset {
                                    first,
                                    second,
                                    domain_initial_index: spec_bit_reverse_index(
                                        start as nat,
                                        log_domain_size,
                                    ) as usize,
                                },
                            ),
                        },
                    ),
                },
            }
        }),
{
}

/// The state in which a rebuilding starts.
pub open spec fn spec_rebuild_start(witness_at: nat) -> RebuildState {
    RebuildState {
        query_at: 0,
        eval_at: 0,
        witness_at,
        positions: Seq::empty(),
        subsets: Seq::empty(),
    }
}

/// The twiddle of a pair on a line domain: the inverse of the first
/// coordinate of its first point.
pub open spec fn spec_subset_line_twiddle(domain: LineDomain, subset: FoldSubset) -> M31 {
    domain.spec_coset().spec_index_at(
        subset.domain_initial_index as nat,
    ).spec_to_point().x.spec_inverse()
}

/// The twiddle of a pair on a circle domain: the inverse of the second
/// coordinate of its first point.
pub open spec fn spec_subset_circle_twiddle(domain: CircleDomain, subset: FoldSubset) -> M31 {
    domain.spec_index_at(subset.domain_initial_index as nat).spec_to_point().y.spec_inverse()
}

/// The folds of the pairs of a layer of line polynomials.
pub open spec fn spec_sparse_fold_line(subsets: Seq<FoldSubset>, alpha: QM31, domain: LineDomain) -> Seq<
    QM31,
> {
    Seq::new(
        subsets.len(),
        |i: int|
            spec_fold_pair(
                subsets[i].first,
                subsets[i].second,
                spec_subset_line_twiddle(domain, subsets[i]),
                alpha,
            ),
    )
}

/// The folds of the pairs of a circle polynomial, each accumulated into zero.
pub open spec fn spec_sparse_fold_circle(
    subsets: Seq<FoldSubset>,
    alpha: QM31,
    domain: CircleDomain,
) -> Seq<QM31> {
    Seq::new(
        subsets.len(),
        |i: int|
            QM31::spec_zero().spec_mul(alpha.spec_mul(alpha)).spec_add(
                spec_fold_circle_pair(
                    subsets[i].first,
                    subsets[i].second,
                    spec_subset_circle_twiddle(domain, subsets[i]),
                    alpha,
                ),
            ),
    )
}

impl SparseEvaluation {
    /// The pairs with the given values and first indices.
    pub fn new(subset_evals: Vec<Vec<QM31>>, subset_domain_initial_indexes: Vec<usize>) -> (r:
        SparseEvaluation)
        requires
            subset_evals.len() == subset_domain_initial_indexes.len(),
            forall|i: int| 0 <= i < subset_evals.len() ==> (#[trigger] subset_evals[i]).len() == 2,
        ensures
            r.subsets.len() == subset_evals.len(),
            forall|i: int|
                0 <= i < r.subsets.len() ==> r.subsets[i] == (FoldSubset {
                    first: subset_evals[i][0],
                    second: subset_evals[i][1],
                    domain_initial_index: subset_domain_initial_indexes[i],
                }),
    {
        let mut subsets: Vec<FoldSubset> = Vec::with_capacity(subset_evals.len());
        let mut i: usize = 0;
        while i < subset_evals.len()
            invariant
                i <= subset_evals.len(),
                subset_evals.len() == subset_domain_initial_indexes.len(),
                forall|k: int|
                    0 <= k < subset_evals.len() ==> (#[trigger] subset_evals[k]).len() == 2,
                subsets.len() == i,
                forall|k: int|
                    0 <= k < i ==> subsets[k] == (FoldSubset {
                        first: subset_evals[k][0],
                        second: subset_evals[k][1],
                        domain_initial_index: subset_domain_initial_indexes[k],
                    }),
            decreases subset_evals.len() - i,
        {
            assert(subset_evals[i as int].len() == 2);
            subsets.push(
                FoldSubset {
                    first: subset_evals[i][0],
                    second: subset_evals[i][1],
                    domain_initial_index: subset_domain_initial_indexes[i],
                },
            );
            i = i + 1;
        }
        SparseEvaluation { subsets }
    }

    /// Folds each pair of a layer of line polynomials.
    pub fn fold_line(&self, fold_alpha: QM31, source_domain: LineDomain) -> (r: Vec<QM31>)
        ensures
            r@ == spec_sparse_fold_line(self.subsets@, fold_alpha, source_domain),
    {
        let n = self.subsets.len();
        let mut out: Vec<QM31> = Vec::with_capacity(n);
        let mut i: usize = 0;
        while i < n
            invariant
                i <= n,
                n == self.subsets.len(),
                out.len() == i,
                forall|k: int|
                    0 <= k < i ==> out[k] == spec_sparse_fold_line(
                        self.subsets@,
                        fold_alpha,
                        source_domain,
                    )[k],
            decreases n - i,
        {
            let subset = self.subsets[i];
            let x = source_domain.coset().index_at(subset.domain_initial_index).to_point().x;
            out.push(fold_pair(subset.first, subset.second, x.inverse_or_zero(), fold_alpha));
            i = i + 1;
        }
        proof {
            assert(out@ =~= spec_sparse_fold_line(self.subsets@, fold_alpha, source_domain));
        }
        out
    }

    /// Folds each pair of a circle polynomial.
    pub fn fold_circle(&self, fold_alpha: QM31, source_domain: CircleDomain) -> (r: Vec<QM31>)
        ensures
            r@ == spec_sparse_fold_circle(self.subsets@, fold_alpha, source_domain),
    {
        let n = self.subsets.len();
        let alpha_sq = fold_alpha.mul(fold_alpha);
        let mut out: Vec<QM31> = Vec::with_capacity(n);
        let mut i: usize = 0;
        while i < n
            invariant
                i <= n,
                n == self.subsets.len(),
                alpha_sq == fold_alpha.spec_mul(fold_alpha),
                out.len() == i,
                forall|k: int|
                    0 <= k < i ==> out[k] == spec_sparse_fold_circle(
                        self.subsets@,
                        fold_alpha,
                        source_domain,
                    )[k],
            decreases n - i,
        {
            let subset = self.subsets[i];
            let p = source_domain.index_at(subset.domain_initial_index).to_point();
            let f_prime = fold_circle_pair(
                subset.first,
                subset.second,
                p.y.inverse_or_zero(),
                fold_alpha,
            );
            out.push(QM31::zero().mul(alpha_sq).add(f_prime));
            i = i + 1;
        }
        proof {
            assert(out@ =~= spec_sparse_fold_circle(self.subsets@, fold_alpha, source_domain));
        }
        out
    }
}

/// The value at `position` and the cursors after it was taken.
fn pick(
    queries: &Vec<usize>,
    query_evals: &Vec<QM31>,
    witness: &Vec<QM31>,
    chunk_end: usize,
    cursor: usize,
    eval_at: usize,
    witness_at: usize,
    position: usize,
) -> (r: Option<(QM31, usize, usize, usize)>)
    requires
        chunk_end <= queries.len(),
        eval_at <= cursor,
        queries.len() == query_evals.len(),
        witness_at <= witness.len(),
    ensures
        match (r, spec_pick(
            queries@,
            query_evals@,
            witness@,
            chunk_end as nat,
            cursor as nat,
            eval_at as nat,
            witness_at as nat,
            position as int,
        )) {
            (Some((v, c, e, w)), Some((sv, sc, se, sw))) => v == sv && c == sc && e == se && w == sw
                && e <= c && w <= witness.len() && cursor <= c && (c <= chunk_end || c == cursor),
            (None, None) => true,
            _ => false,
        },
{
    if cursor < chunk_end && queries[cursor] == position {
        Some((query_evals[eval_at], cursor + 1, eval_at + 1, witness_at))
    } else if witness_at < witness.len() {
        Some((witness[witness_at], cursor, eval_at, witness_at + 1))
    } else {
        None
    }
}

/// The positions to decommit and the pairs to fold at the queries of a
/// layer, completed from the witness from `witness_at` on; with them, how
/// far the witness was read.
pub fn compute_decommitment_positions_and_rebuild_evals(
    queries: &Vec<usize>,
    log_domain_size: u32,
    query_evals: &Vec<QM31>,
    witness_evals: &Vec<QM31>,
    witness_at: usize,
    fold_step: u32,
) -> (r: Result<(Vec<usize>, SparseEvaluation, usize), InsufficientWitnessError>)
    requires
        fold_step == 1,
        log_domain_size <= 31,
        queries.len() == query_evals.len(),
        witness_at <= witness_evals.len(),
        forall|i: int| 0 <= i < queries.len() ==> queries[i] < pow2(log_domain_size as nat),
    ensures
        match (r, spec_rebuild(
            queries@,
            log_domain_size as nat,
            query_evals@,
            witness_evals@,
            spec_rebuild_start(witness_at as nat),
        )) {
            (Ok((positions, sparse, at)), Some(st)) => positions@ == st.positions && sparse.subsets@
                == st.subsets && at == st.witness_at && at <= witness_evals.len(),
            (Err(_), None) => true,
            _ => false,
        },
        r.is_ok() ==> r.unwrap().1.subsets.len() == spec_fold_positions(queries@, 1).len(),
{
    let mut positions: Vec<usize> = Vec::new();
    let mut subsets: Vec<FoldSubset> = Vec::new();
    let mut query_at: usize = 0;
    let mut eval_at: usize = 0;
    let mut witness_pos: usize = witness_at;
    proof {
        vstd::arithmetic::power2::lemma2_to64();
        crate::utils::lemma_pow2_monotone(log_domain_size as nat, 31);
    }
    while query_at < queries.len()
        invariant
            log_domain_size <= 31,
            pow2(log_domain_size as nat) <= 0x8000_0000,
            queries.len() == query_evals.len(),
            forall|i: int| 0 <= i < queries.len() ==> queries[i] < pow2(log_domain_size as nat),
            query_at <= queries.len(),
            eval_at <= query_at,
            witness_pos <= witness_evals.len(),
            pow2(1) == 2,
            subsets.len() == spec_fold_positions(queries@.subrange(0, query_at as int), 1).len(),
            0 < query_at < queries.len() ==> queries[query_at - 1] / 2 != queries[query_at as int]
                / 2,
            spec_rebuild(
                queries@,
                log_domain_size as nat,
                query_evals@,
                witness_evals@,
                RebuildState {
                    query_at: query_at as nat,
                    eval_at: eval_at as nat,
                    witness_at: witness_pos as nat,
                    positions: positions@,
                    subsets: subsets@,
                },
            ) == spec_rebuild(
                queries@,
                log_domain_size as nat,
                query_evals@,
                witness_evals@,
                spec_rebuild_start(witness_at as nat),
            ),
        decreases queries.len() - query_at,
    {
        proof {
            lemma_rebuild_unfold(
                queries@,
                log_domain_size as nat,
                query_evals@,
                witness_evals@,
                RebuildState {
                    query_at: query_at as nat,
                    eval_at: eval_at as nat,
                    witness_at: witness_pos as nat,
                    positions: positions@,
                    subsets: subsets@,
                },
            );
        }
        let key = queries[query_at] / 2;
        let start = 2 * key;
        let mut end = query_at + 1;
        while end < queries.len() && queries[end] / 2 == key
            invariant
                query_at < end <= queries.len(),
                key == queries[query_at as int] / 2,
                forall|j: int| query_at <= j < end ==> queries[j] / 2 == key,
                spec_chunk_end(queries@, end as nat, key) == spec_chunk_end(
                    queries@,
                    (query_at + 1) as nat,
                    key,
                ),
            decreases queries.len() - end,
        {
            end = end + 1;
        }
        let first = pick(
            queries,
            query_evals,
            witness_evals,
            end,
            query_at,
            eval_at,
            witness_pos,
            start,
        );
        match first {
            None => {
                return Err(InsufficientWitnessError);
            },
            Some((first_eval, c1, e1, w1)) => {
                let second = pick(queries, query_evals, witness_evals, end, c1, e1, w1, start + 1);
                match second {
                    None => {
                        return Err(InsufficientWitnessError);
                    },
                    Some((second_eval, c2, e2, w2)) => {
                        proof {
                            lemma_fold_run(queries@, 1, query_at as int, end as int, key);
                        }
                        positions.push(start);
                        positions.push(start + 1);
                        subsets.push(
                            FoldSubset {
                                first: first_eval,
                                second: second_eval,
                                domain_initial_index: bit_reverse_index(start, log_domain_size),
                            },
                        );
                        query_at = end;
                        eval_at = e2;
                        witness_pos = w2;
                    },
                }
            },
        }
    }
    proof {
        assert(queries@.subrange(0, queries.len() as int) =~= queries@);
    }
    Ok((positions, SparseEvaluation { subsets }, witness_pos))
}

} // verus!
