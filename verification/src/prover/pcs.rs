//! The prover's side of the commitment scheme: trees of polynomials, their
//! samples out of the domain and the quotients that FRI tests.

use vstd::prelude::*;
use std::collections::BTreeMap;
use vstd::arithmetic::power2::pow2;
use crate::air::component::spec_points_view;
use crate::channel::{grind, Channel, MerkleChannel};
use crate::circle::secure_point::SecureCirclePoint;
use crate::fields::m31::M31;
use crate::fields::qm31::QM31;
use crate::channel::spec_pow_holds;
use crate::fri::verification::{spec_domain_log_sizes, spec_line_layer_domain, spec_query_positions};
use crate::pcs::commitment::{
    flatten_cols, spec_distinct_descending, spec_flatten_cols, spec_flatten_tree,
    spec_insert_descending,
};
use crate::prover::fri::{
    spec_column_domains, spec_column_values, spec_commit_stage, spec_last_layer_coeffs,
    spec_zero_from,
};
use crate::queries::spec_generate;
use crate::utils::spec_bit_reversed;
use crate::pcs::quotients::{
    accumulate_row_quotients, lemma_group_below, quotient_constants, spec_all_batch_coeffs,
    spec_all_line_coeffs, spec_batch_line_coeffs, spec_batches_view, spec_coeffs_view,
    spec_row_fits, spec_row_quotient, spec_row_quotients, spec_sample_batches,
    spec_samples_view, ColumnSampleBatch, CommitmentSchemeProof, PcsConfig, PointSample,
};
use crate::poly::domain::{CanonicCoset, CircleDomain};
use crate::prover::fri::{FriOps, FriProver};
use crate::prover::poly::circle::{CircleEvaluation, CirclePoly, SecureEvaluation};
use crate::prover::secure_column::SecureColumnByCoords;
use crate::prover::poly::circle::spec_extend;
use crate::prover::poly::fft::spec_fft;
use crate::prover::vcs::merkle_prover::{spec_decommit_layers, spec_decommit_start};
use crate::prover::vcs::merkle_prover::{
    spec_columns, spec_columns_fit, spec_queries_fit, MerkleProver,
};
use crate::utils::{bit_reverse_index, spec_bit_reverse_index};
use crate::vcs::hasher::MerkleHasher;
use crate::vcs::merkle_verifier::{spec_positions, MerkleDecommitment};

verus! {

/// Whether every batch names only columns that are there.
pub open spec fn spec_batches_fit(sample_batches: Seq<ColumnSampleBatch>, n_columns: nat) -> bool {
    forall|i: int, j: int|
        0 <= i < sample_batches.len() && 0 <= j < sample_batches[i].columns_and_values@.len() ==> (
        #[trigger] sample_batches[i].columns_and_values@[j]).0 < n_columns
}

/// The values of the columns at a row.
pub open spec fn spec_values_at_row(columns: Seq<&CircleEvaluation>, row: int) -> Seq<M31> {
    Seq::new(columns.len(), |c: int| columns[c].values[row])
}

/// The combined quotient at a row of the domain, which is kept in
/// bit-reversed order: every batch multiplies what came before by the power
/// of the random coefficient that its number of columns gives, and adds the
/// quotient of its columns at the point of the row.
pub open spec fn spec_quotient_at_row(
    domain: CircleDomain,
    columns: Seq<&CircleEvaluation>,
    random_coeff: QM31,
    sample_batches: Seq<ColumnSampleBatch>,
    row: int,
) -> QM31 {
    spec_row_quotients(
        spec_batches_view(sample_batches),
        spec_values_at_row(columns, row),
        Seq::new(
            sample_batches.len(),
            |i: int|
                spec_batch_line_coeffs(
                    sample_batches[i].point,
                    sample_batches[i].columns_and_values@,
                    random_coeff,
                ),
        ),
        Seq::new(
            sample_batches.len(),
            |i: int| random_coeff.spec_pow(sample_batches[i].columns_and_values@.len()),
        ),
        domain.spec_at(spec_bit_reverse_index(row as nat, domain.spec_log_size())),
        sample_batches.len(),
    )
}

/// The quotients of the columns of one size on a domain, for a processor.
pub trait QuotientOps {
    /// For every point of the domain the combination, by powers of the
    /// random coefficient, of the quotients of the columns at the samples.
    /// `None` where a batch names a column that is not there.
    fn accumulate_quotients(
        domain: CircleDomain,
        columns: &Vec<&CircleEvaluation>,
        random_coeff: QM31,
        sample_batches: &Vec<ColumnSampleBatch>,
        log_blowup_factor: u32,
    ) -> (r: Option<SecureEvaluation>)
        requires
            forall|c: int|
                0 <= c < columns.len() ==> (#[trigger] columns[c]).values.len()
                    == domain.spec_size(),
        ensures
            match r {
                Some(eval) => {
                    &&& spec_batches_fit(sample_batches@, columns.len() as nat)
                    &&& eval.wf()
                    &&& eval.domain == domain
                    &&& forall|row: int|
                        0 <= row < domain.spec_size() ==> #[trigger] eval.values@[row]
                            == spec_quotient_at_row(
                            domain,
                            columns@,
                            random_coeff,
                            sample_batches@,
                            row,
                        )
                },
                None => !spec_batches_fit(sample_batches@, columns.len() as nat),
            },
    ;
}

impl QuotientOps for crate::prover::fri::CpuBackend {
    fn accumulate_quotients(
        domain: CircleDomain,
        columns: &Vec<&CircleEvaluation>,
        random_coeff: QM31,
        sample_batches: &Vec<ColumnSampleBatch>,
        log_blowup_factor: u32,
    ) -> (r: Option<SecureEvaluation>) {
        let size = domain.size();
        let log_size = domain.log_size();
        let constants = quotient_constants(sample_batches, random_coeff);
        // Every batch must name columns that are there.
        let mut b: usize = 0;
        while b < sample_batches.len()
            invariant
                b <= sample_batches.len(),
                constants.line_coeffs.len() == sample_batches.len(),
                forall|i: int, j: int|
                    0 <= i < b && 0 <= j < sample_batches[i].columns_and_values@.len() ==> (
                    #[trigger] sample_batches[i].columns_and_values@[j]).0 < columns.len(),
            decreases sample_batches.len() - b,
        {
            let batch = &sample_batches[b];
            let mut j: usize = 0;
            while j < batch.columns_and_values.len()
                invariant
                    j <= batch.columns_and_values.len(),
                    b < sample_batches.len(),
                    *batch == sample_batches[b as int],
                    forall|k: int|
                        0 <= k < j ==> (#[trigger] batch.columns_and_values@[k]).0 < columns.len(),
                decreases batch.columns_and_values.len() - j,
            {
                if batch.columns_and_values[j].0 >= columns.len() {
                    proof {
                        assert(!((#[trigger] sample_batches[b as int].columns_and_values@[j as int]).0
                            < columns.len()));
                    }
                    return None;
                }
                j = j + 1;
            }
            b = b + 1;
        }
        let ghost line_coeffs = Seq::new(
            sample_batches.len() as nat,
            |i: int|
                spec_batch_line_coeffs(
                    sample_batches[i].point,
                    sample_batches[i].columns_and_values@,
                    random_coeff,
                ),
        );
        let ghost batch_coeffs = Seq::new(
            sample_batches.len() as nat,
            |i: int| random_coeff.spec_pow(sample_batches[i].columns_and_values@.len()),
        );
        proof {
            assert(spec_coeffs_view(constants.line_coeffs@) =~= line_coeffs);
            assert(constants.batch_random_coeffs@ =~= batch_coeffs);
        }
        let mut values: Vec<QM31> = Vec::with_capacity(size);
        let mut row: usize = 0;
        while row < size
            invariant
                row <= size,
                size == domain.spec_size(),
                log_size == domain.spec_log_size(),
                log_size <= 31,
                values.len() == row,
                spec_coeffs_view(constants.line_coeffs@) == line_coeffs,
                constants.batch_random_coeffs@ == batch_coeffs,
                line_coeffs == Seq::new(
                    sample_batches.len() as nat,
                    |i: int|
                        spec_batch_line_coeffs(
                            sample_batches[i].point,
                            sample_batches[i].columns_and_values@,
                            random_coeff,
                        ),
                ),
                batch_coeffs == Seq::new(
                    sample_batches.len() as nat,
                    |i: int| random_coeff.spec_pow(sample_batches[i].columns_and_values@.len()),
                ),
                forall|k: int|
                    0 <= k < row ==> #[trigger] values[k] == spec_quotient_at_row(
                        domain,
                        columns@,
                        random_coeff,
                        sample_batches@,
                        k,
                    ),
                constants.line_coeffs.len() == sample_batches.len(),
                constants.batch_random_coeffs.len() == sample_batches.len(),
                forall|i: int|
                    0 <= i < sample_batches.len() ==> (#[trigger] constants.line_coeffs[i])@.len()
                        == sample_batches[i].columns_and_values@.len(),
                forall|c: int|
                    0 <= c < columns.len() ==> (#[trigger] columns[c]).values.len() == size,
                forall|i: int, j: int|
                    0 <= i < sample_batches.len() && 0 <= j
                        < sample_batches[i].columns_and_values@.len() ==> (
                    #[trigger] sample_batches[i].columns_and_values@[j]).0 < columns.len(),
            decreases size - row,
        {
            let domain_point = domain.at(bit_reverse_index(row, log_size));
            let mut query_values_at_row: Vec<M31> = Vec::with_capacity(columns.len());
            let mut c: usize = 0;
            while c < columns.len()
                invariant
                    c <= columns.len(),
                    row < size,
                    query_values_at_row.len() == c,
                    forall|k: int|
                        0 <= k < columns.len() ==> (#[trigger] columns[k]).values.len() == size,
                    forall|k: int|
                        0 <= k < c ==> query_values_at_row[k] == columns[k].values[row as int],
                decreases columns.len() - c,
            {
                let column = columns[c];
                query_values_at_row.push(column.values[row]);
                c = c + 1;
            }
            proof {
                assert(query_values_at_row@ =~= spec_values_at_row(columns@, row as int));
                assert(spec_row_fits(sample_batches@, query_values_at_row@, constants)) by {
                    assert forall|i: int| 0 <= i < sample_batches.len() implies {
                        &&& (#[trigger] constants.line_coeffs[i]).len()
                            == sample_batches[i].columns_and_values@.len()
                        &&& forall|j: int|
                            0 <= j < sample_batches[i].columns_and_values@.len() ==> (
                            #[trigger] sample_batches[i].columns_and_values@[j]).0
                                < query_values_at_row@.len()
                    } by {
                        assert(constants.line_coeffs[i]@.len()
                            == sample_batches[i].columns_and_values@.len());
                    }
                }
            }
            values.push(
                accumulate_row_quotients(
                    sample_batches,
                    &query_values_at_row,
                    &constants,
                    domain_point,
                ),
            );
            row = row + 1;
        }
        let eval = SecureEvaluation::new(domain, SecureColumnByCoords::from_vec(&values));
        proof {
            assert forall|row: int| 0 <= row < domain.spec_size() implies #[trigger] eval.values@[row]
                == spec_quotient_at_row(domain, columns@, random_coeff, sample_batches@, row) by {
                assert(eval.values@[row] == values[row]);
            }
        }
        Some(eval)
    }
}

/// Whether the column lies on a domain of at most `2^30` points and has a
/// value for each of them.
pub open spec fn spec_column_on_domain(column: CircleEvaluation) -> bool {
    &&& column.domain.spec_log_size() <= 30
    &&& column.values.len() == column.domain.spec_size()
}

/// The columns themselves.
pub open spec fn spec_deref(columns: Seq<&CircleEvaluation>) -> Seq<CircleEvaluation> {
    Seq::new(columns.len(), |c: int| *columns[c])
}

/// The values of the columns at a row.
pub open spec fn spec_row_of_values(columns: Seq<CircleEvaluation>, row: int) -> Seq<M31> {
    Seq::new(columns.len(), |c: int| columns[c].values[row])
}

/// The logarithms of the sizes of the columns.
pub open spec fn spec_column_sizes(columns: Seq<CircleEvaluation>) -> Seq<u32> {
    Seq::new(columns.len(), |c: int| columns[c].domain.spec_log_size() as u32)
}

/// Those of the first `n` columns that have the size, in their order.
pub open spec fn spec_columns_of_size(columns: Seq<CircleEvaluation>, log_size: u32, n: nat) -> Seq<
    CircleEvaluation,
>
    decreases n,
{
    if n == 0 {
        Seq::empty()
    } else {
        let rest = spec_columns_of_size(columns, log_size, (n - 1) as nat);
        if columns[n - 1].domain.spec_log_size() == log_size {
            rest.push(columns[n - 1])
        } else {
            rest
        }
    }
}

/// The samples of those of the first `n` columns that have the size.
pub open spec fn spec_samples_of_size(
    columns: Seq<CircleEvaluation>,
    samples: Seq<Seq<PointSample>>,
    log_size: u32,
    n: nat,
) -> Seq<Seq<PointSample>>
    decreases n,
{
    if n == 0 {
        Seq::empty()
    } else {
        let rest = spec_samples_of_size(columns, samples, log_size, (n - 1) as nat);
        if columns[n - 1].domain.spec_log_size() == log_size {
            rest.push(samples[n - 1])
        } else {
            rest
        }
    }
}

/// The samples of each column as sequences.
pub open spec fn spec_sample_views(samples: Seq<Vec<PointSample>>) -> Seq<Seq<PointSample>> {
    Seq::new(samples.len(), |i: int| samples[i]@)
}

/// The quotient of the columns of one size at a row of their canonic
/// domain: the samples of these columns are grouped by point, and the
/// quotients of the groups are combined by powers of the random
/// coefficient.
pub open spec fn spec_fri_quotient(
    columns: Seq<CircleEvaluation>,
    samples: Seq<Seq<PointSample>>,
    random_coeff: QM31,
    log_size: u32,
    row: int,
) -> QM31 {
    spec_row_quotient(
        spec_sample_batches(spec_samples_of_size(columns, samples, log_size, columns.len())),
        random_coeff,
        spec_row_of_values(spec_columns_of_size(columns, log_size, columns.len()), row),
        CanonicCoset::spec_circle_domain_of(log_size as nat).spec_at(
            spec_bit_reverse_index(row as nat, log_size as nat),
        ),
    )
}

/// The quotient at a row in terms of the batches as values.
proof fn lemma_quotient_at_row(
    domain: CircleDomain,
    columns: Seq<&CircleEvaluation>,
    random_coeff: QM31,
    sample_batches: Seq<ColumnSampleBatch>,
    row: int,
)
    ensures
        spec_quotient_at_row(domain, columns, random_coeff, sample_batches, row)
            == spec_row_quotient(
            spec_batches_view(sample_batches),
            random_coeff,
            spec_row_of_values(spec_deref(columns), row),
            domain.spec_at(spec_bit_reverse_index(row as nat, domain.spec_log_size())),
        ),
{
    let batches = spec_batches_view(sample_batches);
    assert(spec_values_at_row(columns, row) =~= spec_row_of_values(spec_deref(columns), row));
    assert(spec_all_line_coeffs(batches, random_coeff) =~= Seq::new(
        sample_batches.len(),
        |i: int|
            spec_batch_line_coeffs(
                sample_batches[i].point,
                sample_batches[i].columns_and_values@,
                random_coeff,
            ),
    ));
    assert(spec_all_batch_coeffs(batches, random_coeff) =~= Seq::new(
        sample_batches.len(),
        |i: int| random_coeff.spec_pow(sample_batches[i].columns_and_values@.len()),
    ));
}

/// The quotients of the columns, one evaluation for each size of column, the
/// sizes in descending order. `None` exactly where a column lies on a
/// domain of more than `2^30` points or has another number of values than
/// its domain has points.
pub fn compute_fri_quotients<B: QuotientOps>(
    columns: &Vec<&CircleEvaluation>,
    samples: &Vec<Vec<PointSample>>,
    random_coeff: QM31,
    log_blowup_factor: u32,
) -> (r: Option<Vec<SecureEvaluation>>)
    requires
        columns.len() == samples.len(),
    ensures
        r.is_some() == (forall|c: int|
            0 <= c < columns.len() ==> spec_column_on_domain(*#[trigger] columns[c])),
        match r {
            Some(quotients) => {
                let sizes = spec_distinct_descending(
                    spec_column_sizes(spec_deref(columns@)),
                    columns.len() as nat,
                );
                &&& quotients.len() == sizes.len()
                &&& forall|i: int|
                    0 <= i < quotients.len() ==> {
                        &&& (#[trigger] quotients[i]).wf()
                        &&& 1 <= quotients[i].domain.spec_log_size() <= 30
                        &&& quotients[i].domain.spec_log_size() == sizes[i]
                        &&& quotients[i].domain == CanonicCoset::spec_circle_domain_of(
                            quotients[i].domain.spec_log_size(),
                        )
                    }
                &&& forall|i: int, j: int|
                    0 <= i < j < quotients.len() ==> quotients[i].domain.spec_log_size()
                        > quotients[j].domain.spec_log_size()
                &&& forall|i: int, row: int|
                    0 <= i < quotients.len() && 0 <= row < pow2(sizes[i] as nat) ==> (
                    #[trigger] quotients[i]).values@[row] == #[trigger] spec_fri_quotient(
                        spec_deref(columns@),
                        spec_sample_views(samples@),
                        random_coeff,
                        sizes[i],
                        row,
                    )
            },
            None => true,
        },
{
    // The sizes, each once, in descending order.
    let mut sizes: Vec<u32> = Vec::new();
    let mut c: usize = 0;
    while c < columns.len()
        invariant
            c <= columns.len(),
            forall|i: int, j: int| 0 <= i < j < sizes.len() ==> sizes[i] > sizes[j],
            forall|i: int| 0 <= i < sizes.len() ==> (#[trigger] sizes[i]) >= 1 && sizes[i] <= 30,
            sizes@ == spec_distinct_descending(spec_column_sizes(spec_deref(columns@)), c as nat),
            forall|k: int| 0 <= k < c ==> spec_column_on_domain(*#[trigger] columns[k]),
        decreases columns.len() - c,
    {
        let column = columns[c];
        let log_size = column.domain.log_size();
        if log_size > 30 || column.values.len() != column.domain.size() {
            proof {
                assert(!spec_column_on_domain(*columns[c as int]));
            }
            return None;
        }
        insert_size(&mut sizes, log_size);
        c = c + 1;
    }
    let ghost all_sizes = sizes@;
    let mut out: Vec<SecureEvaluation> = Vec::with_capacity(sizes.len());
    let mut s: usize = 0;
    while s < sizes.len()
        invariant
            s <= sizes.len(),
            columns.len() == samples.len(),
            sizes@ == all_sizes,
            all_sizes == spec_distinct_descending(
                spec_column_sizes(spec_deref(columns@)),
                columns.len() as nat,
            ),
            forall|k: int| 0 <= k < columns.len() ==> spec_column_on_domain(*#[trigger] columns[k]),
            forall|i: int, j: int| 0 <= i < j < sizes.len() ==> sizes[i] > sizes[j],
            forall|i: int| 0 <= i < sizes.len() ==> (#[trigger] sizes[i]) >= 1 && sizes[i] <= 30,
            out.len() == s,
            forall|i: int|
                0 <= i < s ==> {
                    &&& (#[trigger] out[i]).wf()
                    &&& out[i].domain.spec_log_size() == sizes[i]
                    &&& out[i].domain == CanonicCoset::spec_circle_domain_of(sizes[i] as nat)
                },
            forall|i: int, row: int|
                0 <= i < s && 0 <= row < pow2(sizes[i] as nat) ==> (#[trigger] out[i]).values@[row]
                    == #[trigger] spec_fri_quotient(
                    spec_deref(columns@),
                    spec_sample_views(samples@),
                    random_coeff,
                    sizes[i],
                    row,
                ),
        decreases sizes.len() - s,
    {
        let log_size = sizes[s];
        let domain = CanonicCoset::new(log_size).circle_domain();
        let size = domain.size();
        let mut group_columns: Vec<&CircleEvaluation> = Vec::new();
        let mut group_samples: Vec<&Vec<PointSample>> = Vec::new();
        let mut k: usize = 0;
        proof {
            assert(spec_deref(group_columns@) =~= spec_columns_of_size(
                spec_deref(columns@),
                log_size,
                0,
            ));
            assert(spec_samples_view(group_samples@) =~= spec_samples_of_size(
                spec_deref(columns@),
                spec_sample_views(samples@),
                log_size,
                0,
            ));
        }
        while k < columns.len()
            invariant
                k <= columns.len(),
                columns.len() == samples.len(),
                size == domain.spec_size(),
                domain.spec_log_size() == log_size,
                forall|j: int|
                    0 <= j < columns.len() ==> spec_column_on_domain(*#[trigger] columns[j]),
                group_columns.len() == group_samples.len(),
                group_columns.len() <= k,
                spec_deref(group_columns@) == spec_columns_of_size(
                    spec_deref(columns@),
                    log_size,
                    k as nat,
                ),
                spec_samples_view(group_samples@) == spec_samples_of_size(
                    spec_deref(columns@),
                    spec_sample_views(samples@),
                    log_size,
                    k as nat,
                ),
                forall|g: int|
                    0 <= g < group_columns.len() ==> (#[trigger] group_columns[g]).values.len()
                        == size,
            decreases columns.len() - k,
        {
            let column = columns[k];
            assert(spec_column_on_domain(*columns[k as int]));
            if column.domain.log_size() == log_size {
                if column.values.len() != size {
                    return None;
                }
                let ghost before = spec_samples_view(group_samples@);
                let ghost before_columns = spec_deref(group_columns@);
                group_columns.push(column);
                group_samples.push(&samples[k]);
                proof {
                    assert(spec_samples_view(group_samples@) =~= before.push(samples[k as int]@));
                    assert(spec_deref(group_columns@) =~= before_columns.push(*columns[k as int]));
                }
            }
            k = k + 1;
        }
        let sample_batches = ColumnSampleBatch::new_vec(&group_samples);
        let ghost batches = spec_sample_batches(spec_samples_view(group_samples@));
        proof {
            lemma_group_below(spec_samples_view(group_samples@), group_columns.len() as nat);
            assert(spec_batches_view(sample_batches@) =~= batches) by {
                assert forall|i: int| 0 <= i < sample_batches.len() implies spec_batches_view(
                    sample_batches@,
                )[i] == batches[i] by {
                    assert(sample_batches[i].columns_and_values@ =~= batches[i].1);
                }
            }
            assert(spec_batches_fit(sample_batches@, group_columns.len() as nat));
        }
        match B::accumulate_quotients(
            domain,
            &group_columns,
            random_coeff,
            &sample_batches,
            log_blowup_factor,
        ) {
            None => {
                return None;
            },
            Some(eval) => {
                proof {
                    assert forall|row: int| 0 <= row < pow2(log_size as nat) implies eval.values@[row]
                        == spec_fri_quotient(
                        spec_deref(columns@),
                        spec_sample_views(samples@),
                        random_coeff,
                        log_size,
                        row,
                    ) by {
                        lemma_quotient_at_row(
                            domain,
                            group_columns@,
                            random_coeff,
                            sample_batches@,
                            row,
                        );
                    }
                }
                out.push(eval);
            },
        }
        s = s + 1;
    }
    Some(out)
}

/// Where a size goes among sizes in strictly descending order: behind
/// those that are larger. It is left out if it stands there already.
pub proof fn lemma_insert_place(sizes: Seq<u32>, v: u32, at: int)
    requires
        forall|i: int, j: int| 0 <= i < j < sizes.len() ==> sizes[i] > sizes[j],
        0 <= at <= sizes.len(),
        forall|i: int| 0 <= i < at ==> sizes[i] > v,
        at < sizes.len() ==> sizes[at] <= v,
    ensures
        spec_insert_descending(sizes, v) == if at < sizes.len() && sizes[at] == v {
            sizes
        } else {
            sizes.insert(at, v)
        },
    decreases sizes.len(),
{
    if sizes.len() == 0 {
        assert(sizes.insert(at, v) =~= seq![v]);
    } else if sizes.last() > v {
        assert(at == sizes.len());
        assert(sizes.insert(at, v) =~= sizes.push(v));
    } else if sizes.last() == v {
        assert(at == sizes.len() - 1);
    } else {
        let head = sizes.drop_last();
        lemma_insert_place(head, v, at);
        if at < head.len() && head[at] == v {
            assert(head.push(sizes.last()) =~= sizes);
        } else {
            assert(head.insert(at, v).push(sizes.last()) =~= sizes.insert(at, v));
        }
    }
}

/// Puts a size in its place among the sizes in descending order, unless it is there.
fn insert_size(sizes: &mut Vec<u32>, v: u32)
    requires
        forall|i: int, j: int| 0 <= i < j < old(sizes).len() ==> old(sizes)[i] > old(sizes)[j],
        forall|i: int|
            0 <= i < old(sizes).len() ==> (#[trigger] old(sizes)[i]) >= 1 && old(sizes)[i] <= 30,
        1 <= v <= 30,
    ensures
        final(sizes)@ == spec_insert_descending(old(sizes)@, v),
        forall|i: int, j: int| 0 <= i < j < final(sizes).len() ==> final(sizes)[i] > final(sizes)[j],
        forall|i: int|
            0 <= i < final(sizes).len() ==> (#[trigger] final(sizes)[i]) >= 1 && final(sizes)[i]
                <= 30,
{
    let mut at: usize = 0;
    while at < sizes.len() && sizes[at] > v
        invariant
            at <= sizes.len(),
            *sizes == *old(sizes),
            forall|i: int| 0 <= i < at ==> sizes[i] > v,
        decreases sizes.len() - at,
    {
        at = at + 1;
    }
    proof {
        lemma_insert_place(sizes@, v, at as int);
    }
    if at < sizes.len() && sizes[at] == v {
        return;
    }
    sizes.insert(at, v);
}

/// A tree of polynomials: the polynomials, their evaluations on the
/// blown-up domains, and the Merkle tree over the evaluations.
pub struct CommitmentTreeProver<H: MerkleHasher> {
    pub polynomials: Vec<CirclePoly>,
    pub evaluations: Vec<CircleEvaluation>,
    pub commitment: MerkleProver<H>,
}

/// The columns of the evaluations.
pub open spec fn spec_evaluation_columns(evaluations: Seq<CircleEvaluation>) -> Seq<Seq<M31>> {
    Seq::new(evaluations.len(), |i: int| evaluations[i].values@)
}

/// The columns of the evaluations.
fn evaluation_columns<'a>(evaluations: &'a Vec<CircleEvaluation>) -> (r: Vec<&'a Vec<M31>>)
    ensures
        spec_columns(r@) == spec_evaluation_columns(evaluations@),
{
    let mut out: Vec<&'a Vec<M31>> = Vec::with_capacity(evaluations.len());
    let mut i: usize = 0;
    while i < evaluations.len()
        invariant
            i <= evaluations.len(),
            out.len() == i,
            forall|k: int| 0 <= k < i ==> (#[trigger] out[k])@ == evaluations[k].values@,
        decreases evaluations.len() - i,
    {
        out.push(&evaluations[i].values);
        i = i + 1;
    }
    proof {
        assert(spec_columns(out@) =~= spec_evaluation_columns(evaluations@));
    }
    out
}

impl<H: MerkleHasher> CommitmentTreeProver<H> {
    /// The tree commits to the evaluations, each on a valid domain.
    pub open spec fn wf(self) -> bool {
        &&& self.polynomials.len() == self.evaluations.len()
        &&& self.commitment.spec_commits_to(spec_evaluation_columns(self.evaluations@))
        &&& forall|i: int|
            0 <= i < self.evaluations.len() ==> {
                &&& (#[trigger] self.evaluations[i]).wf()
                &&& self.polynomials[i].wf()
            }
    }

    /// The tree of the polynomials, each evaluated on the canonic domain
    /// that is larger than its number of coefficients by the blow-up
    /// factor. `None` exactly where such a domain would have one point or
    /// more than `2^30` points.
    pub fn new(polynomials: Vec<CirclePoly>, log_blowup_factor: u32) -> (r: Option<
        CommitmentTreeProver<H>,
    >)
        requires
            forall|i: int| 0 <= i < polynomials.len() ==> (#[trigger] polynomials[i]).wf(),
        ensures
            r.is_some() == spec_polys_fit(polynomials@, log_blowup_factor),
            match r {
                Some(tree) => {
                    &&& tree.wf()
                    &&& tree.polynomials == polynomials
                    &&& forall|i: int|
                        0 <= i < polynomials.len() ==> {
                            &&& (#[trigger] tree.evaluations[i]).domain
                                == CanonicCoset::spec_circle_domain_of(
                                (polynomials[i].log_size + log_blowup_factor) as nat,
                            )
                            &&& tree.evaluations[i].values@ == spec_blown_up_values(
                                polynomials[i],
                                log_blowup_factor,
                            )
                        }
                    &&& tree.commitment.layers.len() == spec_largest_log_size(
                        polynomials@,
                        log_blowup_factor,
                        polynomials.len() as nat,
                    ) + 1
                },
                None => true,
            },
    {
        let mut evaluations: Vec<CircleEvaluation> = Vec::with_capacity(polynomials.len());
        let mut max_log_size: u32 = 0;
        let mut i: usize = 0;
        while i < polynomials.len()
            invariant
                i <= polynomials.len(),
                forall|k: int| 0 <= k < polynomials.len() ==> (#[trigger] polynomials[k]).wf(),
                evaluations.len() == i,
                max_log_size <= 30,
                max_log_size == spec_largest_log_size(polynomials@, log_blowup_factor, i as nat),
                forall|k: int|
                    0 <= k < i ==> spec_poly_fits(#[trigger] polynomials[k], log_blowup_factor),
                forall|k: int|
                    0 <= k < i ==> {
                        &&& (#[trigger] evaluations[k]).wf()
                        &&& evaluations[k].domain.spec_log_size() <= max_log_size
                        &&& evaluations[k].domain == CanonicCoset::spec_circle_domain_of(
                            (polynomials[k].log_size + log_blowup_factor) as nat,
                        )
                        &&& evaluations[k].values@ == spec_blown_up_values(
                            polynomials[k],
                            log_blowup_factor,
                        )
                    },
            decreases polynomials.len() - i,
        {
            let poly = &polynomials[i];
            assert(poly.wf());
            if poly.log_size > 30 || log_blowup_factor > 30 - poly.log_size || poly.log_size
                + log_blowup_factor < 1 {
                proof {
                    assert(!spec_poly_fits(polynomials[i as int], log_blowup_factor));
                }
                return None;
            }
            let log_size = poly.log_size + log_blowup_factor;
            let domain = CanonicCoset::new(log_size).circle_domain();
            evaluations.push(poly.evaluate(domain));
            if log_size > max_log_size {
                max_log_size = log_size;
            }
            i = i + 1;
        }
        let commitment = {
            let columns = evaluation_columns(&evaluations);
            proof {
                let cols = spec_columns(columns@);
                assert forall|k: int| 0 <= k < cols.len() implies crate::prover::vcs::merkle_prover::spec_column_fits(
                    #[trigger] cols[k],
                    max_log_size as nat,
                ) by {
                    assert(evaluations[k].wf());
                    let e = evaluations[k].domain.spec_log_size();
                    assert(e <= max_log_size);
                    assert(cols[k].len() == pow2(e));
                }
                assert(spec_columns_fit(cols, max_log_size as nat));
            }
            MerkleProver::<H>::commit(&columns, max_log_size)
        };
        Some(CommitmentTreeProver { polynomials, evaluations, commitment })
    }

    /// The values of the columns at the queries, in the order in which the
    /// tree is walked from its largest layer down, and what the verifier
    /// needs besides them to compute the root. `None` exactly where a
    /// query lies outside its layer.
    pub fn decommit(&self, queries: &BTreeMap<u32, Vec<usize>>) -> (r: Option<
        (Vec<M31>, MerkleDecommitment<H>),
    >)
        requires
            self.wf(),
        ensures
            r.is_some() == spec_queries_fit(
                spec_positions(queries@),
                self.commitment.spec_max_log_size(),
            ),
            match r {
                Some((values, decommitment)) => {
                    let st = spec_decommit_layers::<H>(
                        spec_evaluation_columns(self.evaluations@),
                        self.commitment.spec_max_log_size(),
                        spec_positions(queries@),
                        self.commitment.spec_max_log_size() as int,
                        spec_decommit_start::<H>(),
                    );
                    &&& values@ == st.queried_values
                    &&& decommitment.hash_witness@ == st.hash_witness
                    &&& decommitment.column_witness@ == st.column_witness
                },
                None => true,
            },
    {
        broadcast use vstd::std_specs::btree::group_btree_axioms;

        if !queries_fit(queries, (self.commitment.layers.len() - 1) as u32) {
            return None;
        }
        let columns = evaluation_columns(&self.evaluations);
        Some(self.commitment.decommit(queries, &columns))
    }
}

/// Whether the domain of the polynomial, blown up, has at least two and at
/// most `2^30` points.
pub open spec fn spec_poly_fits(poly: CirclePoly, log_blowup_factor: u32) -> bool {
    1 <= poly.log_size + log_blowup_factor <= 30
}

/// Whether every polynomial fits.
pub open spec fn spec_polys_fit(polynomials: Seq<CirclePoly>, log_blowup_factor: u32) -> bool {
    forall|i: int|
        0 <= i < polynomials.len() ==> spec_poly_fits(#[trigger] polynomials[i], log_blowup_factor)
}

/// The values of the polynomial on its blown-up canonic domain, in
/// bit-reversed order.
pub open spec fn spec_blown_up_values(poly: CirclePoly, log_blowup_factor: u32) -> Seq<M31> {
    let log_size = (poly.log_size + log_blowup_factor) as nat;
    spec_fft(
        spec_extend(poly.coeffs@, pow2(log_size)),
        CanonicCoset::spec_circle_domain_of(log_size),
        log_size,
    )
}

/// The logarithm of the size of the largest blown-up domain among the
/// first `n` polynomials; zero if there is none.
pub open spec fn spec_largest_log_size(polynomials: Seq<CirclePoly>, log_blowup_factor: u32, n: nat) -> nat
    decreases n,
{
    if n == 0 {
        0
    } else {
        let rest = spec_largest_log_size(polynomials, log_blowup_factor, (n - 1) as nat);
        let here = (polynomials[n - 1].log_size + log_blowup_factor) as nat;
        if here > rest {
            here
        } else {
            rest
        }
    }
}

/// Whether each queried position lies in its layer.
pub fn queries_fit(queries: &BTreeMap<u32, Vec<usize>>, max_log_size: u32) -> (r: bool)
    requires
        max_log_size <= 30,
    ensures
        r == spec_queries_fit(spec_positions(queries@), max_log_size as nat),
{
    broadcast use vstd::std_specs::btree::group_btree_axioms;

    let mut l: u32 = 0;
    let mut done = false;
    while !done
        invariant
            max_log_size <= 30,
            l <= max_log_size,
            forall|k: u32, i: int|
                k <= max_log_size && (k < l || done) && spec_positions(queries@).contains_key(k)
                    && 0 <= i < spec_positions(queries@)[k].len() ==> (#[trigger] spec_positions(
                    queries@,
                )[k][i]) < pow2(k as nat),
        decreases
                if done {
                    0
                } else {
                    max_log_size + 1 - l
                },
    {
        match queries.get(&l) {
            None => {},
            Some(positions) => {
                let bound = crate::utils::pow2_usize(l);
                assert(spec_positions(queries@).contains_key(l));
                assert(spec_positions(queries@)[l] == positions@);
                let mut i: usize = 0;
                while i < positions.len()
                    invariant
                        i <= positions.len(),
                        l <= max_log_size,
                        bound == pow2(l as nat),
                        spec_positions(queries@).contains_key(l),
                        spec_positions(queries@)[l] == positions@,
                        forall|t: int| 0 <= t < i ==> positions[t] < bound,
                    decreases positions.len() - i,
                {
                    if positions[i] >= bound {
                        assert(spec_positions(queries@)[l][i as int] >= pow2(l as nat));
                        return false;
                    }
                    i = i + 1;
                }
            },
        }
        if l == max_log_size {
            done = true;
        } else {
            l = l + 1;
        }
    }
    true
}

} // verus!

verus! {

/// The prover of the commitment scheme: the trees that were committed so far.
pub struct CommitmentSchemeProver<MC: MerkleChannel> {
    pub trees: Vec<CommitmentTreeProver<MC::H>>,
    pub config: PcsConfig,
}

impl<MC: MerkleChannel> CommitmentSchemeProver<MC> {
    /// All the trees are valid.
    pub open spec fn wf(self) -> bool {
        forall|t: int| 0 <= t < self.trees.len() ==> (#[trigger] self.trees[t]).wf()
    }

    pub fn new(config: PcsConfig) -> (r: CommitmentSchemeProver<MC>)
        ensures
            r.trees.len() == 0,
            r.config == config,
            r.wf(),
    {
        CommitmentSchemeProver { trees: Vec::new(), config }
    }

    /// Commits to a tree of polynomials and absorbs its root. Nothing
    /// happens, and the answer is `false`, where a polynomial is too large
    /// for a domain of `2^30` points.
    pub fn commit(&mut self, polynomials: Vec<CirclePoly>, channel: &mut MC::C) -> (r: bool)
        requires
            old(self).wf(),
            forall|i: int| 0 <= i < polynomials.len() ==> (#[trigger] polynomials[i]).wf(),
        ensures
            final(self).wf(),
            final(self).config == old(self).config,
            r == spec_polys_fit(polynomials@, old(self).config.fri_config.log_blowup_factor),
            r ==> {
                &&& final(self).trees.len() == old(self).trees.len() + 1
                &&& forall|t: int|
                    0 <= t < old(self).trees.len() ==> final(self).trees[t] == old(self).trees[t]
                &&& final(self).trees[old(self).trees.len() as int].polynomials == polynomials
                &&& *final(channel) == MC::spec_mix_root(
                    *old(channel),
                    final(self).trees[old(self).trees.len() as int].commitment.layers[0][0],
                )
            },
            !r ==> *final(self) == *old(self) && *final(channel) == *old(channel),
    {
        match CommitmentTreeProver::<MC::H>::new(
            polynomials,
            self.config.fri_config.log_blowup_factor,
        ) {
            None => false,
            Some(tree) => {
                proof {
                    vstd::arithmetic::power2::lemma_pow2_pos(0);
                }
                MC::mix_root(channel, tree.commitment.root());
                self.trees.push(tree);
                true
            },
        }
    }

    /// The roots of the trees.
    pub fn roots(&self) -> (r: Vec<<MC::H as MerkleHasher>::Hash>)
        requires
            self.wf(),
        ensures
            r.len() == self.trees.len(),
            forall|t: int|
                0 <= t < r.len() ==> r[t] == (#[trigger] self.trees[t]).commitment.layers[0][0],
    {
        let mut out: Vec<<MC::H as MerkleHasher>::Hash> = Vec::with_capacity(self.trees.len());
        let mut t: usize = 0;
        while t < self.trees.len()
            invariant
                t <= self.trees.len(),
                self.wf(),
                out.len() == t,
                forall|k: int|
                    0 <= k < t ==> out[k] == (#[trigger] self.trees[k]).commitment.layers[0][0],
            decreases self.trees.len() - t,
        {
            assert(self.trees[t as int].wf());
            proof {
                vstd::arithmetic::power2::lemma_pow2_pos(0);
            }
            out.push(self.trees[t].commitment.root());
            t = t + 1;
        }
        out
    }

    /// The trace that the scheme holds: the polynomials and the
    /// evaluations of each tree.
    pub open spec fn spec_trace(self) -> crate::prover::air::TraceModel {
        crate::prover::air::TraceModel {
            polys: Seq::new(self.trees.len() as nat, |t: int| self.trees[t].polynomials@),
            evals: Seq::new(self.trees.len() as nat, |t: int| self.trees[t].evaluations@),
        }
    }

    /// The values of the polynomials at the points, of each column of each tree.
    pub open spec fn spec_sampled_values(
        self,
        sampled_points: Seq<Seq<Seq<SecureCirclePoint>>>,
    ) -> Seq<Seq<Seq<QM31>>> {
        Seq::new(
            self.trees.len() as nat,
            |t: int|
                Seq::new(
                    self.trees[t].polynomials.len() as nat,
                    |c: int|
                        Seq::new(
                            sampled_points[t][c].len(),
                            |k: int|
                                self.trees[t].polynomials[c].spec_eval_at_point(
                                    sampled_points[t][c][k],
                                ),
                        ),
                ),
        )
    }

    /// Whether there are points for every column of every tree.
    pub open spec fn spec_points_fit(self, sampled_points: Seq<Seq<Seq<SecureCirclePoint>>>) -> bool {
        &&& sampled_points.len() == self.trees.len()
        &&& forall|t: int|
            0 <= t < self.trees.len() ==> (#[trigger] sampled_points[t]).len()
                == self.trees[t].polynomials.len()
    }

    /// The evaluations of all the columns, tree by tree.
    pub open spec fn spec_columns(self) -> Seq<CircleEvaluation> {
        spec_flat_columns(self.trees@, self.trees.len() as nat)
    }

    /// The samples of all the columns, tree by tree.
    pub open spec fn spec_samples(self, sampled_points: Seq<Seq<Seq<SecureCirclePoint>>>) -> Seq<
        Seq<PointSample>,
    > {
        spec_flat_samples(self.trees@, sampled_points, self.trees.len() as nat)
    }

    /// The transcript after the samples were absorbed and the coefficient
    /// of the quotients was drawn, and that coefficient.
    pub open spec fn spec_after_samples(
        self,
        sampled_points: Seq<Seq<Seq<SecureCirclePoint>>>,
        channel: MC::C,
    ) -> (MC::C, QM31) {
        channel.spec_mix_felts(
            spec_flatten_values(
                self.spec_sampled_values(sampled_points),
                self.trees.len() as nat,
            ),
        ).spec_draw_secure_felt()
    }

    /// The different sizes of the columns, in descending order.
    pub open spec fn spec_quotient_sizes(self) -> Seq<u32> {
        spec_distinct_descending(
            spec_column_sizes(self.spec_columns()),
            self.spec_columns().len(),
        )
    }

    /// The domains of the quotients: the canonic domain of each size.
    pub open spec fn spec_quotient_domains(self) -> Seq<CircleDomain> {
        Seq::new(
            self.spec_quotient_sizes().len(),
            |i: int| CanonicCoset::spec_circle_domain_of(self.spec_quotient_sizes()[i] as nat),
        )
    }

    /// The quotients: for each size the quotient of the columns of that
    /// size at every row.
    pub open spec fn spec_quotient_values(
        self,
        sampled_points: Seq<Seq<Seq<SecureCirclePoint>>>,
        random_coeff: QM31,
    ) -> Seq<Seq<QM31>> {
        Seq::new(
            self.spec_quotient_sizes().len(),
            |i: int|
                Seq::new(
                    pow2(self.spec_quotient_sizes()[i] as nat),
                    |row: int|
                        spec_fri_quotient(
                            self.spec_columns(),
                            self.spec_samples(sampled_points),
                            random_coeff,
                            self.spec_quotient_sizes()[i],
                            row,
                        ),
                ),
        )
    }

    /// The commitment stage of FRI on the quotients: the transcript after
    /// the inner layers, the evaluations of the inner layers, and the
    /// evaluation of the last layer.
    pub open spec fn spec_fri_commitment(
        self,
        sampled_points: Seq<Seq<Seq<SecureCirclePoint>>>,
        channel: MC::C,
    ) -> (MC::C, Seq<Seq<QM31>>, Seq<QM31>) {
        let (after, random_coeff) = self.spec_after_samples(sampled_points, channel);
        spec_commit_stage::<MC>(
            after,
            self.config.fri_config,
            self.spec_quotient_domains(),
            self.spec_quotient_values(sampled_points, random_coeff),
        )
    }

    /// The coefficients of the last layer in their natural order.
    pub open spec fn spec_last_coeffs(
        self,
        sampled_points: Seq<Seq<Seq<SecureCirclePoint>>>,
        channel: MC::C,
    ) -> Seq<QM31> {
        let (after, layers, last) = self.spec_fri_commitment(sampled_points, channel);
        spec_last_layer_coeffs(
            last,
            spec_line_layer_domain(self.spec_quotient_domains()[0], layers.len()),
        )
    }

    /// The polynomial of the last layer as it is sent.
    pub open spec fn spec_last_poly(
        self,
        sampled_points: Seq<Seq<Seq<SecureCirclePoint>>>,
        channel: MC::C,
    ) -> Seq<QM31> {
        spec_bit_reversed(
            self.spec_last_coeffs(sampled_points, channel).subrange(
                0,
                pow2(self.config.fri_config.log_last_layer_degree_bound as nat) as int,
            ),
            self.config.fri_config.log_last_layer_degree_bound as nat,
        )
    }

    /// The transcript for which the proof of work is sought.
    pub open spec fn spec_before_grind(
        self,
        sampled_points: Seq<Seq<Seq<SecureCirclePoint>>>,
        channel: MC::C,
    ) -> MC::C {
        self.spec_fri_commitment(sampled_points, channel).0.spec_mix_felts(
            self.spec_last_poly(sampled_points, channel),
        )
    }

    /// The transcript after the nonce was absorbed and the queries were
    /// drawn, and the positions of the queries by the size of the columns.
    pub open spec fn spec_opened_at(
        self,
        sampled_points: Seq<Seq<Seq<SecureCirclePoint>>>,
        channel: MC::C,
        nonce: u64,
    ) -> (MC::C, Map<u32, Seq<usize>>) {
        let log_size = self.spec_quotient_domains()[0].spec_log_size();
        let (after, positions) = spec_generate(
            self.spec_before_grind(sampled_points, channel).spec_mix_u64(nonce),
            log_size,
            Seq::empty(),
            self.config.fri_config.n_queries as nat,
        );
        (
            after,
            spec_query_positions(
                positions,
                log_size,
                spec_domain_log_sizes(self.spec_quotient_domains()),
            ),
        )
    }

    /// The queries that the nonce leads to, on the largest of the domains
    /// of the quotients.
    pub open spec fn spec_queries_at(
        self,
        sampled_points: Seq<Seq<Seq<SecureCirclePoint>>>,
        channel: MC::C,
        nonce: u64,
    ) -> Seq<usize> {
        spec_generate(
            self.spec_before_grind(sampled_points, channel).spec_mix_u64(nonce),
            self.spec_quotient_domains()[0].spec_log_size(),
            Seq::empty(),
            self.config.fri_config.n_queries as nat,
        ).1
    }

    /// Whether the FRI proof is that of the quotients at the queries that
    /// the nonce leads to: the first layer opens the quotients, each inner
    /// layer opens its evaluation at the queries folded down to it, and the
    /// polynomial of the last layer is the one that was sent.
    pub open spec fn spec_fri_opened(
        self,
        sampled_points: Seq<Seq<Seq<SecureCirclePoint>>>,
        channel: MC::C,
        nonce: u64,
        fri_proof: crate::fri::config::FriProof<MC::H>,
    ) -> bool {
        let random_coeff = self.spec_after_samples(sampled_points, channel).1;
        let domains = self.spec_quotient_domains();
        let layers = self.spec_fri_commitment(sampled_points, channel).1;
        let queries = self.spec_queries_at(sampled_points, channel, nonce);
        &&& crate::prover::fri::spec_first_layer_proof::<MC::H>(
            domains,
            self.spec_quotient_values(sampled_points, random_coeff),
            queries,
            fri_proof.first_layer,
        )
        &&& fri_proof.inner_layers.len() == layers.len()
        &&& forall|k: int|
            0 <= k < layers.len() ==> crate::prover::fri::spec_inner_layer_proof::<MC::H>(
                layers[k],
                (domains[0].spec_log_size() - 1 - k) as nat,
                crate::queries::spec_fold_positions(queries, (k + 1) as nat),
                #[trigger] fri_proof.inner_layers[k],
            )
        &&& fri_proof.last_layer_poly@ == self.spec_last_poly(sampled_points, channel)
    }

    /// Whether every tree can be opened at the queries that the nonce
    /// leads to.
    pub open spec fn spec_trees_open(
        self,
        sampled_points: Seq<Seq<Seq<SecureCirclePoint>>>,
        channel: MC::C,
        nonce: u64,
    ) -> bool {
        forall|t: int|
            0 <= t < self.trees.len() ==> spec_queries_fit(
                self.spec_opened_at(sampled_points, channel, nonce).1,
                (#[trigger] self.trees[t]).commitment.spec_max_log_size(),
            )
    }

    /// Whether the samples can be proved: there are points for every
    /// column, the columns lie on domains of at most `2^30` points, the
    /// parameters of FRI suit the sizes, the last layer respects its degree
    /// bound, a nonce is a proof of work, there is a query, and the trees
    /// can be opened at the queries of the least such nonce.
    pub open spec fn spec_can_prove(
        self,
        sampled_points: Seq<Seq<Seq<SecureCirclePoint>>>,
        channel: MC::C,
    ) -> bool {
        &&& self.spec_points_fit(sampled_points)
        &&& forall|c: int|
            0 <= c < self.spec_columns().len() ==> spec_column_on_domain(
                #[trigger] self.spec_columns()[c],
            )
        &&& spec_fri_fits(self.config.fri_config, self.spec_quotient_domains())
        &&& spec_zero_from(
            self.spec_last_coeffs(sampled_points, channel),
            pow2(self.config.fri_config.log_last_layer_degree_bound as nat),
        )
        &&& exists|nonce: u64| #[trigger]
            spec_pow_holds(
                self.spec_before_grind(sampled_points, channel),
                nonce,
                self.config.pow_bits,
            )
        &&& self.config.fri_config.n_queries >= 1
        &&& forall|nonce: u64| #[trigger]
            spec_least_nonce(
                self.spec_before_grind(sampled_points, channel),
                nonce,
                self.config.pow_bits,
            ) ==> self.spec_trees_open(sampled_points, channel, nonce)
    }

    /// Samples the polynomials at the points and proves the samples: the
    /// samples are absorbed, their quotients are committed by FRI, the
    /// least nonce that is a proof of work is found, the queries are drawn
    /// and the trees are opened at them.
    pub fn prove_values<B: QuotientOps + FriOps>(
        &self,
        sampled_points: &Vec<Vec<Vec<SecureCirclePoint>>>,
        channel: &mut MC::C,
    ) -> (r: Option<CommitmentSchemeProof<MC::H>>)
        requires
            self.wf(),
        ensures
            r.is_some() == self.spec_can_prove(spec_points_view(sampled_points@), *old(channel)),
            match r {
                Some(proof) => {
                    let nonce = proof.proof_of_work;
                    let opened = self.spec_opened_at(spec_points_view(sampled_points@), *old(channel), nonce);
                    &&& self.spec_points_fit(spec_points_view(sampled_points@))
                    &&& crate::air::component::spec_mask_view(proof.sampled_values@)
                        == self.spec_sampled_values(spec_points_view(sampled_points@))
                    &&& proof.config == self.config
                    &&& proof.commitments.len() == self.trees.len()
                    &&& forall|t: int|
                        0 <= t < self.trees.len() ==> proof.commitments[t] == (
                        #[trigger] self.trees[t]).commitment.layers[0][0]
                    &&& spec_least_nonce(
                        self.spec_before_grind(spec_points_view(sampled_points@), *old(channel)),
                        nonce,
                        self.config.pow_bits,
                    )
                    &&& *final(channel) == opened.0
                    &&& self.spec_fri_opened(
                        spec_points_view(sampled_points@),
                        *old(channel),
                        nonce,
                        proof.fri_proof,
                    )
                    &&& proof.fri_proof.last_layer_poly@ == self.spec_last_poly(
                        spec_points_view(sampled_points@),
                        *old(channel),
                    )
                    &&& proof.fri_proof.inner_layers.len() == self.spec_fri_commitment(
                        spec_points_view(sampled_points@),
                        *old(channel),
                    ).1.len()
                    &&& proof.queried_values.len() == self.trees.len()
                    &&& proof.decommitments.len() == self.trees.len()
                    &&& forall|t: int|
                        0 <= t < self.trees.len() ==> spec_tree_opened(
                            #[trigger] self.trees[t],
                            opened.1,
                            proof.queried_values[t]@,
                            proof.decommitments[t],
                        )
                },
                None => true,
            },
    {
        if sampled_points.len() != self.trees.len() {
            return None;
        }
        // Evaluate the polynomials at the points.
        let mut samples: Vec<Vec<PointSample>> = Vec::new();
        let mut sampled_values: Vec<Vec<Vec<QM31>>> = Vec::with_capacity(self.trees.len());
        let mut t: usize = 0;
        proof {
            assert(spec_sample_views(samples@) =~= spec_flat_samples(
                self.trees@,
                spec_points_view(sampled_points@),
                0,
            ));
        }
        while t < self.trees.len()
            invariant
                t <= self.trees.len(),
                self.wf(),
                sampled_points.len() == self.trees.len(),
                sampled_values.len() == t,
                spec_sample_views(samples@) == spec_flat_samples(
                    self.trees@,
                    spec_points_view(sampled_points@),
                    t as nat,
                ),
                forall|k: int|
                    0 <= k < t ==> (#[trigger] sampled_points[k]).len()
                        == self.trees[k].polynomials.len(),
                forall|k: int|
                    0 <= k < t ==> crate::air::component::spec_mask_view(sampled_values@)[k]
                        == self.spec_sampled_values(spec_points_view(sampled_points@))[k],
            decreases self.trees.len() - t,
        {
            let tree = &self.trees[t];
            assert(tree.wf());
            let points = &sampled_points[t];
            if points.len() != tree.polynomials.len() {
                proof {
                    assert(spec_points_view(sampled_points@)[t as int].len() == points.len());
                }
                return None;
            }
            let ghost head = spec_sample_views(samples@);
            let mut tree_values: Vec<Vec<QM31>> = Vec::with_capacity(points.len());
            let mut c: usize = 0;
            proof {
                assert(spec_sample_views(samples@) =~= head + Seq::new(
                    0,
                    |j: int| spec_column_samples(tree.polynomials[j], points[j]@),
                ));
            }
            while c < points.len()
                invariant
                    c <= points.len(),
                    tree.wf(),
                    points.len() == tree.polynomials.len(),
                    tree_values.len() == c,
                    spec_sample_views(samples@) == head + Seq::new(
                        c as nat,
                        |j: int| spec_column_samples(tree.polynomials[j], points[j]@),
                    ),
                    forall|j: int|
                        0 <= j < c ==> (#[trigger] tree_values[j])@ == Seq::new(
                            points[j].len() as nat,
                            |k: int| tree.polynomials[j].spec_eval_at_point(points[j][k]),
                        ),
                decreases points.len() - c,
            {
                let poly = &tree.polynomials[c];
                assert(tree.evaluations[c as int].wf());
                assert(poly.wf());
                let column_points = &points[c];
                let mut column_samples: Vec<PointSample> = Vec::with_capacity(column_points.len());
                let mut column_values: Vec<QM31> = Vec::with_capacity(column_points.len());
                let mut k: usize = 0;
                while k < column_points.len()
                    invariant
                        k <= column_points.len(),
                        poly.wf(),
                        column_values.len() == k,
                        column_samples.len() == k,
                        forall|j: int|
                            0 <= j < k ==> column_values[j] == poly.spec_eval_at_point(
                                column_points[j],
                            ),
                        forall|j: int|
                            0 <= j < k ==> column_samples[j] == (PointSample {
                                point: column_points[j],
                                value: poly.spec_eval_at_point(column_points[j]),
                            }),
                    decreases column_points.len() - k,
                {
                    let point = column_points[k];
                    let value = poly.eval_at_point(point);
                    column_samples.push(PointSample { point, value });
                    column_values.push(value);
                    k = k + 1;
                }
                proof {
                    assert(column_values@ =~= Seq::new(
                        points[c as int].len() as nat,
                        |k: int| tree.polynomials[c as int].spec_eval_at_point(points[c as int][k]),
                    ));
                    assert(column_samples@ =~= spec_column_samples(
                        tree.polynomials[c as int],
                        points[c as int]@,
                    ));
                }
                let ghost before = spec_sample_views(samples@);
                samples.push(column_samples);
                proof {
                    assert(spec_sample_views(samples@) =~= before.push(column_samples@));
                    assert(before.push(column_samples@) =~= head + Seq::new(
                        (c + 1) as nat,
                        |j: int| spec_column_samples(tree.polynomials[j], points[j]@),
                    ));
                }
                tree_values.push(column_values);
                c = c + 1;
            }
            let ghost before = crate::air::component::spec_mask_view(sampled_values@);
            sampled_values.push(tree_values);
            proof {
                let got = crate::air::component::spec_mask_view(sampled_values@);
                assert(got[t as int] =~= self.spec_sampled_values(spec_points_view(sampled_points@))[t as int]);
                assert forall|k: int| 0 <= k < t implies got[k] == self.spec_sampled_values(
                    spec_points_view(sampled_points@),
                )[k] by {
                    assert(got[k] =~= before[k]);
                }
                assert(Seq::new(
                    points.len() as nat,
                    |j: int| spec_column_samples(tree.polynomials[j], points[j]@),
                ) =~= Seq::new(
                    self.trees[t as int].polynomials.len() as nat,
                    |j: int|
                        spec_column_samples(
                            self.trees[t as int].polynomials[j],
                            sampled_points[t as int][j]@,
                        ),
                ));
            }
            t = t + 1;
        }
        proof {
            assert(crate::air::component::spec_mask_view(sampled_values@)
                =~= self.spec_sampled_values(spec_points_view(sampled_points@)));
            lemma_flatten(sampled_values@, sampled_values.len() as nat);
            assert(self.spec_points_fit(spec_points_view(sampled_points@)));
        }
        let flat = flatten_cols(&sampled_values);
        channel.mix_felts(&flat);
        let random_coeff = channel.draw_secure_felt();
        // Compute the quotients of the columns.
        let mut columns: Vec<&CircleEvaluation> = Vec::new();
        let mut tree: usize = 0;
        proof {
            assert(spec_deref(columns@) =~= spec_flat_columns(self.trees@, 0));
        }
        while tree < self.trees.len()
            invariant
                tree <= self.trees.len(),
                spec_deref(columns@) == spec_flat_columns(self.trees@, tree as nat),
            decreases self.trees.len() - tree,
        {
            let evaluations = &self.trees[tree].evaluations;
            let ghost head = spec_deref(columns@);
            let mut c: usize = 0;
            proof {
                assert(spec_deref(columns@) =~= head + Seq::new(0, |j: int| evaluations[j]));
            }
            while c < evaluations.len()
                invariant
                    c <= evaluations.len(),
                    spec_deref(columns@) == head + Seq::new(c as nat, |j: int| evaluations[j]),
                decreases evaluations.len() - c,
            {
                let ghost before = spec_deref(columns@);
                columns.push(&evaluations[c]);
                proof {
                    assert(spec_deref(columns@) =~= before.push(evaluations[c as int]));
                    assert(before.push(evaluations[c as int]) =~= head + Seq::new(
                        (c + 1) as nat,
                        |j: int| evaluations[j],
                    ));
                }
                c = c + 1;
            }
            proof {
                assert(Seq::new(evaluations.len() as nat, |j: int| evaluations[j]) =~= Seq::new(
                    self.trees[tree as int].evaluations.len() as nat,
                    |j: int| self.trees[tree as int].evaluations[j],
                ));
            }
            tree = tree + 1;
        }
        proof {
            lemma_flat_lengths(self.trees@, spec_points_view(sampled_points@), self.trees.len() as nat);
        }
        if columns.len() != samples.len() {
            return None;
        }
        let fri_config = self.config.fri_config;
        let quotients = match compute_fri_quotients::<B>(
            &columns,
            &samples,
            random_coeff,
            fri_config.log_blowup_factor,
        ) {
            None => {
                proof {
                    if forall|c: int|
                        0 <= c < self.spec_columns().len() ==> spec_column_on_domain(
                            #[trigger] self.spec_columns()[c],
                        ) {
                        assert forall|c: int| 0 <= c < columns.len() implies spec_column_on_domain(
                            *#[trigger] columns[c],
                        ) by {
                            assert(spec_deref(columns@)[c] == *columns[c]);
                            assert(spec_column_on_domain(self.spec_columns()[c]));
                        }
                    }
                }
                return None;
            },
            Some(q) => q,
        };
        proof {
            assert forall|c: int| 0 <= c < self.spec_columns().len() implies spec_column_on_domain(
                #[trigger] self.spec_columns()[c],
            ) by {
                assert(spec_deref(columns@)[c] == *columns[c]);
                assert(spec_column_on_domain(*columns[c]));
            }
        }
        let ghost domains = self.spec_quotient_domains();
        let ghost values = self.spec_quotient_values(spec_points_view(sampled_points@), random_coeff);
        proof {
            assert(spec_column_domains(quotients@) =~= domains);
            assert(spec_column_values(quotients@) =~= values) by {
                assert forall|i: int| 0 <= i < quotients.len() implies spec_column_values(
                    quotients@,
                )[i] == values[i] by {
                    assert(quotients[i].wf());
                    assert(quotients[i].values@ =~= values[i]);
                }
            }
        }
        // Run FRI on the quotients.
        if !columns_fit::<MC>(fri_config, &quotients) {
            proof {
                if spec_fri_fits(fri_config, domains) {
                    assert forall|i: int| 0 <= i < quotients.len() implies {
                        &&& (#[trigger] quotients[i]).wf()
                        &&& quotients[i].domain.spec_is_canonic()
                    } by {
                        assert(spec_column_domains(quotients@)[i] == quotients[i].domain);
                        assert(domains[i].spec_is_canonic());
                    }
                    assert(spec_column_domains(quotients@)[0] == quotients[0].domain);
                    assert(FriProver::<MC>::spec_columns_fit(fri_config, quotients@));
                }
            }
            return None;
        }
        let fri_prover = match FriProver::<MC>::commit::<B>(channel, fri_config, &quotients) {
            None => {
                return None;
            },
            Some(p) => p,
        };
        let ghost before_grind = *channel;
        // Proof of work.
        let proof_of_work = match grind(&*channel, self.config.pow_bits) {
            None => {
                return None;
            },
            Some(nonce) => nonce,
        };
        channel.mix_u64(proof_of_work);
        // FRI decommitment phase.
        if fri_config.n_queries == 0 {
            return None;
        }
        let ghost inner = fri_prover.inner_layers.len();
        let ghost last_poly = fri_prover.last_layer_poly@;
        proof {
            assert(Seq::new(
                fri_prover.first_layer.columns.len() as nat,
                |i: int| fri_prover.first_layer.columns[i].domain,
            ) =~= domains);
        }
        let ghost committed = fri_prover;
        let (fri_proof, query_positions_per_log_size) = fri_prover.decommit(channel);
        let ghost opened = self.spec_opened_at(spec_points_view(sampled_points@), *old(channel), proof_of_work);
        proof {
            assert(spec_positions(query_positions_per_log_size@) == opened.1);
            assert(spec_least_nonce(before_grind, proof_of_work, self.config.pow_bits));
            let queries = self.spec_queries_at(
                spec_points_view(sampled_points@),
                *old(channel),
                proof_of_work,
            );
            let layers = self.spec_fri_commitment(spec_points_view(sampled_points@), *old(channel)).1;
            assert(committed.first_layer.columns[0].domain == domains[0]);
            crate::prover::fri::lemma_first_layer_proof::<MC::H>(
                committed.first_layer,
                queries,
                fri_proof.first_layer,
            );
            assert forall|k: int| 0 <= k < layers.len() implies crate::prover::fri::spec_inner_layer_proof::<
                MC::H,
            >(
                layers[k],
                (domains[0].spec_log_size() - 1 - k) as nat,
                crate::queries::spec_fold_positions(queries, (k + 1) as nat),
                #[trigger] fri_proof.inner_layers[k],
            ) by {
                assert(committed.inner_layers[k].wf());
                crate::prover::fri::lemma_inner_layer_proof::<MC::H>(
                    committed.inner_layers[k],
                    crate::queries::spec_fold_positions(queries, (k + 1) as nat),
                    fri_proof.inner_layers[k],
                );
            }
            assert(self.spec_fri_opened(
                spec_points_view(sampled_points@),
                *old(channel),
                proof_of_work,
                fri_proof,
            ));
        }
        // Decommit the FRI queries on the merkle trees.
        let mut queried_values: Vec<Vec<M31>> = Vec::with_capacity(self.trees.len());
        let mut decommitments: Vec<MerkleDecommitment<MC::H>> = Vec::with_capacity(
            self.trees.len(),
        );
        let mut d: usize = 0;
        while d < self.trees.len()
            invariant
                d <= self.trees.len(),
                self.wf(),
                queried_values.len() == d,
                decommitments.len() == d,
                spec_positions(query_positions_per_log_size@) == opened.1,
                opened == self.spec_opened_at(spec_points_view(sampled_points@), *old(channel), proof_of_work),
                self.spec_fri_opened(
                    spec_points_view(sampled_points@),
                    *old(channel),
                    proof_of_work,
                    fri_proof,
                ),
                spec_least_nonce(
                    self.spec_before_grind(spec_points_view(sampled_points@), *old(channel)),
                    proof_of_work,
                    self.config.pow_bits,
                ),
                forall|k: int|
                    0 <= k < d ==> spec_queries_fit(
                        opened.1,
                        (#[trigger] self.trees[k]).commitment.spec_max_log_size(),
                    ),
                forall|k: int|
                    0 <= k < d ==> spec_tree_opened(
                        #[trigger] self.trees[k],
                        opened.1,
                        queried_values[k]@,
                        decommitments[k],
                    ),
            decreases self.trees.len() - d,
        {
            assert(self.trees[d as int].wf());
            match self.trees[d].decommit(&query_positions_per_log_size) {
                None => {
                    proof {
                        assert(!self.spec_trees_open(
                            spec_points_view(sampled_points@),
                            *old(channel),
                            proof_of_work,
                        ));
                    }
                    return None;
                },
                Some((values, decommitment)) => {
                    queried_values.push(values);
                    decommitments.push(decommitment);
                },
            }
            d = d + 1;
        }
        proof {
            assert(self.spec_trees_open(spec_points_view(sampled_points@), *old(channel), proof_of_work));
            assert forall|nonce: u64| #[trigger]
                spec_least_nonce(
                    self.spec_before_grind(spec_points_view(sampled_points@), *old(channel)),
                    nonce,
                    self.config.pow_bits,
                ) implies self.spec_trees_open(spec_points_view(sampled_points@), *old(channel), nonce) by {
                assert(nonce == proof_of_work);
            }
        }
        Some(
            CommitmentSchemeProof {
                commitments: self.roots(),
                sampled_values,
                decommitments,
                queried_values,
                proof_of_work,
                fri_proof,
                config: self.config,
            },
        )
    }
}

/// The evaluations of the columns of the first `n` trees, tree by tree.
pub open spec fn spec_flat_columns<H: MerkleHasher>(trees: Seq<CommitmentTreeProver<H>>, n: nat) -> Seq<
    CircleEvaluation,
>
    decreases n,
{
    if n == 0 {
        Seq::empty()
    } else {
        spec_flat_columns(trees, (n - 1) as nat) + Seq::new(
            trees[n - 1].evaluations.len() as nat,
            |c: int| trees[n - 1].evaluations[c],
        )
    }
}

/// The samples of a polynomial at the points.
pub open spec fn spec_column_samples(poly: CirclePoly, points: Seq<SecureCirclePoint>) -> Seq<
    PointSample,
> {
    Seq::new(
        points.len(),
        |k: int| (PointSample { point: points[k], value: poly.spec_eval_at_point(points[k]) }),
    )
}

/// The samples of the columns of the first `n` trees, tree by tree.
pub open spec fn spec_flat_samples<H: MerkleHasher>(
    trees: Seq<CommitmentTreeProver<H>>,
    sampled_points: Seq<Seq<Seq<SecureCirclePoint>>>,
    n: nat,
) -> Seq<Seq<PointSample>>
    decreases n,
{
    if n == 0 {
        Seq::empty()
    } else {
        spec_flat_samples(trees, sampled_points, (n - 1) as nat) + Seq::new(
            trees[n - 1].polynomials.len() as nat,
            |c: int| spec_column_samples(trees[n - 1].polynomials[c], sampled_points[n - 1][c]),
        )
    }
}

/// There are as many columns as lists of samples.
pub proof fn lemma_flat_lengths<H: MerkleHasher>(
    trees: Seq<CommitmentTreeProver<H>>,
    sampled_points: Seq<Seq<Seq<SecureCirclePoint>>>,
    n: nat,
)
    requires
        n <= trees.len(),
        forall|t: int| 0 <= t < trees.len() ==> (#[trigger] trees[t]).wf(),
    ensures
        spec_flat_columns(trees, n).len() == spec_flat_samples(trees, sampled_points, n).len(),
    decreases n,
{
    if n > 0 {
        lemma_flat_lengths(trees, sampled_points, (n - 1) as nat);
        assert(trees[n - 1].wf());
    }
}

/// All the values of the first `n` columns of a tree.
pub open spec fn spec_flatten_columns(columns: Seq<Seq<QM31>>, n: nat) -> Seq<QM31>
    decreases n,
{
    if n == 0 {
        Seq::empty()
    } else {
        spec_flatten_columns(columns, (n - 1) as nat) + columns[n - 1]
    }
}

/// All the values, tree by tree and column by column, of the first `n`
/// trees.
pub open spec fn spec_flatten_values(values: Seq<Seq<Seq<QM31>>>, n: nat) -> Seq<QM31>
    decreases n,
{
    if n == 0 {
        Seq::empty()
    } else {
        spec_flatten_values(values, (n - 1) as nat) + spec_flatten_columns(
            values[n - 1],
            values[n - 1].len(),
        )
    }
}

/// Flattening the columns of a tree is flattening their values.
pub proof fn lemma_flatten_tree(columns: Seq<Vec<QM31>>, n: nat)
    requires
        n <= columns.len(),
    ensures
        spec_flatten_tree(columns, n) == spec_flatten_columns(
            Seq::new(columns.len(), |c: int| columns[c]@),
            n,
        ),
    decreases n,
{
    if n > 0 {
        lemma_flatten_tree(columns, (n - 1) as nat);
    }
}

/// Flattening the trees is flattening their values.
pub proof fn lemma_flatten(trees: Seq<Vec<Vec<QM31>>>, n: nat)
    requires
        n <= trees.len(),
    ensures
        spec_flatten_cols(trees, n) == spec_flatten_values(
            crate::air::component::spec_mask_view(trees),
            n,
        ),
    decreases n,
{
    if n > 0 {
        lemma_flatten(trees, (n - 1) as nat);
        lemma_flatten_tree(trees[n - 1]@, trees[n - 1].len() as nat);
    }
}

/// What the commitment stage of FRI asks of the domains of the columns:
/// the parameters are in range, there is a column, the domains are
/// canonic, and half the largest is no smaller than the domain of the last
/// layer.
pub open spec fn spec_fri_fits(config: crate::fri::config::FriConfig, domains: Seq<CircleDomain>) -> bool {
    &&& config.wf()
    &&& domains.len() >= 1
    &&& forall|i: int| 0 <= i < domains.len() ==> (#[trigger] domains[i]).spec_is_canonic()
    &&& domains[0].spec_log_size() <= 30
    &&& domains[0].spec_log_size() - 1 >= config.log_last_layer_degree_bound
        + config.log_blowup_factor
}

/// Whether `nonce` is the least proof of work for the transcript.
pub open spec fn spec_least_nonce<C: Channel>(channel: C, nonce: u64, pow_bits: u32) -> bool {
    &&& spec_pow_holds(channel, nonce, pow_bits)
    &&& forall|n: u64| n < nonce ==> !#[trigger] spec_pow_holds(channel, n, pow_bits)
}

/// Whether the values and the decommitment are those of the tree at the
/// queries.
pub open spec fn spec_tree_opened<H: MerkleHasher>(
    tree: CommitmentTreeProver<H>,
    queries: Map<u32, Seq<usize>>,
    values: Seq<M31>,
    decommitment: MerkleDecommitment<H>,
) -> bool {
    let st = spec_decommit_layers::<H>(
        spec_evaluation_columns(tree.evaluations@),
        tree.commitment.spec_max_log_size(),
        queries,
        tree.commitment.spec_max_log_size() as int,
        spec_decommit_start::<H>(),
    );
    &&& values == st.queried_values
    &&& decommitment.hash_witness@ == st.hash_witness
    &&& decommitment.column_witness@ == st.column_witness
}

/// Whether the quotients are what the commitment stage of FRI asks for.
fn columns_fit<MC: MerkleChannel>(
    config: crate::fri::config::FriConfig,
    columns: &Vec<SecureEvaluation>,
) -> (r: bool)
    requires
        forall|i: int| 0 <= i < columns.len() ==> (#[trigger] columns[i]).wf(),
        forall|i: int, j: int|
            0 <= i < j < columns.len() ==> columns[i].domain.spec_log_size()
                > columns[j].domain.spec_log_size(),
    ensures
        r == FriProver::<MC>::spec_columns_fit(config, columns@),
{
    if !(1 <= config.log_blowup_factor && config.log_blowup_factor <= 16
        && config.log_last_layer_degree_bound <= 10) {
        return false;
    }
    if columns.len() == 0 {
        return false;
    }
    let mut i: usize = 0;
    while i < columns.len()
        invariant
            i <= columns.len(),
            forall|k: int| 0 <= k < i ==> (#[trigger] columns[k]).domain.spec_is_canonic(),
        decreases columns.len() - i,
    {
        if !columns[i].domain.is_canonic() {
            proof {
                assert(!(#[trigger] columns[i as int]).domain.spec_is_canonic());
            }
            return false;
        }
        i = i + 1;
    }
    let first_log_size = columns[0].domain.log_size();
    first_log_size <= 30 && first_log_size - 1 >= config.log_last_layer_degree_bound
        + config.log_blowup_factor
}

} // verus!
