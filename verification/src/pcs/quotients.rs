//! The quotients that tie the samples of the columns, taken at points
//! outside the domain, to the values of the columns on the domain.

use vstd::prelude::*;
use crate::circle::point::CirclePoint;
use crate::circle::secure_point::SecureCirclePoint;
use crate::fields::cm31::CM31;
use crate::fields::m31::M31;
use crate::fields::qm31::QM31;
use crate::fri::config::{FriConfig, FriProof};
use crate::pcs::sample_map::{
    sample_map_entries, sample_map_into_entries, sample_map_new, sample_map_push,
    spec_push_sample, PointKey, SampleItem,
};
use crate::poly::domain::CanonicCoset;
use crate::utils::bit_reverse_index;
use crate::vcs::hasher::MerkleHasher;
use crate::vcs::merkle_verifier::MerkleDecommitment;
use crate::verification::VerificationError;

verus! {

/// The parameters of the commitment scheme.
#[derive(Debug, Clone, Copy, PartialEq, Eq, Structural)]
pub struct PcsConfig {
    pub pow_bits: u32,
    pub fri_config: FriConfig,
}

/// What the prover sends for the commitment scheme: the roots of the trees,
/// the samples out of the domain, the values at the queries with their
/// decommitments, the nonce of the proof of work and the FRI proof.
pub struct CommitmentSchemeProof<H: MerkleHasher> {
    pub config: PcsConfig,
    pub commitments: Vec<H::Hash>,
    pub sampled_values: Vec<Vec<Vec<QM31>>>,
    pub decommitments: Vec<MerkleDecommitment<H>>,
    pub queried_values: Vec<Vec<M31>>,
    pub proof_of_work: u64,
    pub fri_proof: FriProof<H>,
}

/// A value of a column at a point outside the domain.
#[derive(Copy, Clone, Debug, PartialEq, Eq, Structural)]
pub struct PointSample {
    pub point: SecureCirclePoint,
    pub value: QM31,
}

/// The samples at one point: the columns that were sampled there, each with its value.
pub struct ColumnSampleBatch {
    /// The point of the samples.
    pub point: SecureCirclePoint,
    /// The index of each sampled column and its value at the point.
    pub columns_and_values: Vec<(usize, QM31)>,
}

/// The eight coordinates of a point.
pub open spec fn spec_point_key(p: SecureCirclePoint) -> PointKey {
    (
        p.x.0.0@ as u32,
        p.x.0.1@ as u32,
        p.x.1.0@ as u32,
        p.x.1.1@ as u32,
        p.y.0.0@ as u32,
        p.y.0.1@ as u32,
        p.y.1.0@ as u32,
        p.y.1.1@ as u32,
    )
}

/// The point with the given coordinates.
pub open spec fn spec_key_point(k: PointKey) -> SecureCirclePoint {
    SecureCirclePoint {
        x: QM31::of(((k.0 as int, k.1 as int), (k.2 as int, k.3 as int))),
        y: QM31::of(((k.4 as int, k.5 as int), (k.6 as int, k.7 as int))),
    }
}

/// The index of a column with the coordinates of its value.
pub open spec fn spec_sample_item(column: usize, v: QM31) -> SampleItem {
    (column, v.0.0@ as u32, v.0.1@ as u32, v.1.0@ as u32, v.1.1@ as u32)
}

/// The index of a column with its value.
pub open spec fn spec_item_value(item: SampleItem) -> (usize, QM31) {
    (item.0, QM31::of(((item.1 as int, item.2 as int), (item.3 as int, item.4 as int))))
}

/// The groups after the samples of one column were added.
pub open spec fn spec_group_column(
    entries: Seq<(PointKey, Seq<SampleItem>)>,
    column: usize,
    samples: Seq<PointSample>,
) -> Seq<(PointKey, Seq<SampleItem>)>
    decreases samples.len(),
{
    if samples.len() == 0 {
        entries
    } else {
        spec_push_sample(
            spec_group_column(entries, column, samples.drop_last()),
            spec_point_key(samples.last().point),
            spec_sample_item(column, samples.last().value),
        )
    }
}

/// The samples of all the columns grouped by their point: the groups come in
/// the order in which their points first occur, and in each group the
/// samples in the order of the columns.
pub open spec fn spec_group(samples: Seq<Seq<PointSample>>) -> Seq<(PointKey, Seq<SampleItem>)>
    decreases samples.len(),
{
    if samples.len() == 0 {
        Seq::empty()
    } else {
        spec_group_column(
            spec_group(samples.drop_last()),
            (samples.len() - 1) as usize,
            samples.last(),
        )
    }
}

/// The samples of each column.
pub open spec fn spec_samples_view(samples: Seq<&Vec<PointSample>>) -> Seq<Seq<PointSample>> {
    Seq::new(samples.len(), |i: int| samples[i]@)
}

/// The coordinates of a point.
fn point_key(p: SecureCirclePoint) -> (r: PointKey)
    ensures
        r == spec_point_key(p),
{
    (
        p.x.0.0.value(),
        p.x.0.1.value(),
        p.x.1.0.value(),
        p.x.1.1.value(),
        p.y.0.0.value(),
        p.y.0.1.value(),
        p.y.1.0.value(),
        p.y.1.1.value(),
    )
}

/// The element with the given coordinates.
fn secure_of(a: u32, b: u32, c: u32, d: u32) -> (r: QM31)
    ensures
        r == QM31::of(((a as int, b as int), (c as int, d as int))),
{
    QM31(CM31(M31::from_u32(a), M31::from_u32(b)), CM31(M31::from_u32(c), M31::from_u32(d)))
}

impl ColumnSampleBatch {
    /// Groups the samples of the columns by their point.
    pub fn new_vec(samples: &Vec<&Vec<PointSample>>) -> (r: Vec<ColumnSampleBatch>)
        ensures
            r.len() == spec_group(spec_samples_view(samples@)).len(),
            forall|i: int|
                0 <= i < r.len() ==> {
                    let group = spec_group(spec_samples_view(samples@))[i];
                    &&& (#[trigger] r[i]).point == spec_key_point(group.0)
                    &&& r[i].columns_and_values@.len() == group.1.len()
                    &&& forall|j: int|
                        0 <= j < group.1.len() ==> r[i].columns_and_values@[j] == spec_item_value(
                            group.1[j],
                        )
                },
    {
        let mut grouped = sample_map_new();
        let mut column_index: usize = 0;
        proof {
            assert(spec_samples_view(samples@).subrange(0, 0) =~= Seq::<Seq<PointSample>>::empty());
        }
        while column_index < samples.len()
            invariant
                column_index <= samples.len(),
                sample_map_entries(grouped) == spec_group(
                    spec_samples_view(samples@).subrange(0, column_index as int),
                ),
            decreases samples.len() - column_index,
        {
            let column_samples = samples[column_index];
            let ghost before = sample_map_entries(grouped);
            let mut k: usize = 0;
            proof {
                assert(column_samples@.subrange(0, 0) =~= Seq::<PointSample>::empty());
            }
            while k < column_samples.len()
                invariant
                    k <= column_samples.len(),
                    sample_map_entries(grouped) == spec_group_column(
                        before,
                        column_index,
                        column_samples@.subrange(0, k as int),
                    ),
                decreases column_samples.len() - k,
            {
                let sample = column_samples[k];
                proof {
                    let s = column_samples@.subrange(0, k + 1);
                    assert(s.drop_last() =~= column_samples@.subrange(0, k as int));
                    assert(s.last() == sample);
                }
                sample_map_push(
                    &mut grouped,
                    point_key(sample.point),
                    (
                        column_index,
                        sample.value.0.0.value(),
                        sample.value.0.1.value(),
                        sample.value.1.0.value(),
                        sample.value.1.1.value(),
                    ),
                );
                k = k + 1;
            }
            proof {
                assert(column_samples@.subrange(0, column_samples.len() as int)
                    =~= column_samples@);
                let s = spec_samples_view(samples@).subrange(0, column_index + 1);
                assert(s.drop_last() =~= spec_samples_view(samples@).subrange(
                    0,
                    column_index as int,
                ));
                assert(s.last() == column_samples@);
            }
            column_index = column_index + 1;
        }
        proof {
            assert(spec_samples_view(samples@).subrange(0, samples.len() as int)
                =~= spec_samples_view(samples@));
        }
        let ghost groups = sample_map_entries(grouped);
        let entries = sample_map_into_entries(grouped);
        let mut out: Vec<ColumnSampleBatch> = Vec::with_capacity(entries.len());
        let mut i: usize = 0;
        while i < entries.len()
            invariant
                i <= entries.len(),
                entries.len() == groups.len(),
                forall|e: int|
                    0 <= e < entries.len() ==> (#[trigger] entries[e]).0 == groups[e].0
                        && entries[e].1@ == groups[e].1,
                out.len() == i,
                forall|e: int|
                    0 <= e < i ==> {
                        &&& (#[trigger] out[e]).point == spec_key_point(groups[e].0)
                        &&& out[e].columns_and_values@.len() == groups[e].1.len()
                        &&& forall|j: int|
                            0 <= j < groups[e].1.len() ==> out[e].columns_and_values@[j]
                                == spec_item_value(groups[e].1[j])
                    },
            decreases entries.len() - i,
        {
            let key = entries[i].0;
            let items = &entries[i].1;
            let mut columns_and_values: Vec<(usize, QM31)> = Vec::with_capacity(items.len());
            let mut j: usize = 0;
            while j < items.len()
                invariant
                    j <= items.len(),
                    columns_and_values.len() == j,
                    forall|t: int|
                        0 <= t < j ==> columns_and_values[t] == spec_item_value(items[t]),
                decreases items.len() - j,
            {
                let item = items[j];
                columns_and_values.push((item.0, secure_of(item.1, item.2, item.3, item.4)));
                j = j + 1;
            }
            let point = SecureCirclePoint {
                x: secure_of(key.0, key.1, key.2, key.3),
                y: secure_of(key.4, key.5, key.6, key.7),
            };
            out.push(ColumnSampleBatch { point, columns_and_values });
            i = i + 1;
        }
        out
    }
}

/// The conjugate over the quadratic extension: `a - bu` for `a + bu`.
pub open spec fn spec_complex_conjugate(v: QM31) -> QM31 {
    QM31(v.0, v.1.spec_neg())
}

/// The coefficients `(alpha a, alpha b, alpha c)` of the line through a
/// sample and its conjugate: `c * value - (a * y + b)` vanishes at the
/// point of the sample and at its conjugate.
pub open spec fn spec_line_coeffs(sample: PointSample, alpha: QM31) -> (QM31, QM31, QM31) {
    let a = spec_complex_conjugate(sample.value).spec_sub(sample.value);
    let c = spec_complex_conjugate(sample.point.y).spec_sub(sample.point.y);
    let b = sample.value.spec_mul(c).spec_sub(a.spec_mul(sample.point.y));
    (alpha.spec_mul(a), alpha.spec_mul(b), alpha.spec_mul(c))
}

/// The coefficients of the lines of the columns of one batch: the `i`-th
/// column takes the coefficient `alpha^i`, so the first one takes one.
pub open spec fn spec_batch_line_coeffs(
    point: SecureCirclePoint,
    columns_and_values: Seq<(usize, QM31)>,
    random_coeff: QM31,
) -> Seq<(QM31, QM31, QM31)> {
    Seq::new(
        columns_and_values.len(),
        |i: int|
            spec_line_coeffs(
                PointSample { point, value: columns_and_values[i].1 },
                random_coeff.spec_pow(i as nat),
            ),
    )
}

/// The conjugate over the quadratic extension.
pub fn complex_conjugate(v: QM31) -> (r: QM31)
    ensures
        r == spec_complex_conjugate(v),
{
    QM31(v.0, v.1.neg())
}

/// The coefficients of the line through a sample and its conjugate.
pub fn complex_conjugate_line_coeffs(sample: &PointSample, alpha: QM31) -> (r: (QM31, QM31, QM31))
    ensures
        r == spec_line_coeffs(*sample, alpha),
{
    let a = complex_conjugate(sample.value).sub(sample.value);
    let c = complex_conjugate(sample.point.y).sub(sample.point.y);
    let b = sample.value.mul(c).sub(a.mul(sample.point.y));
    (alpha.mul(a), alpha.mul(b), alpha.mul(c))
}

/// The line coefficients of every column of every batch.
pub fn column_line_coeffs(sample_batches: &Vec<ColumnSampleBatch>, random_coeff: QM31) -> (r: Vec<
    Vec<(QM31, QM31, QM31)>,
>)
    ensures
        r.len() == sample_batches.len(),
        forall|i: int|
            0 <= i < r.len() ==> (#[trigger] r[i])@ == spec_batch_line_coeffs(
                sample_batches[i].point,
                sample_batches[i].columns_and_values@,
                random_coeff,
            ),
{
    let mut out: Vec<Vec<(QM31, QM31, QM31)>> = Vec::with_capacity(sample_batches.len());
    let mut i: usize = 0;
    random_coeff.reduced();
    while i < sample_batches.len()
        invariant
            i <= sample_batches.len(),
            random_coeff.wf(),
            out.len() == i,
            forall|k: int|
                0 <= k < i ==> (#[trigger] out[k])@ == spec_batch_line_coeffs(
                    sample_batches[k].point,
                    sample_batches[k].columns_and_values@,
                    random_coeff,
                ),
        decreases sample_batches.len() - i,
    {
        let batch = &sample_batches[i];
        let mut alpha = QM31::one();
        let mut coeffs: Vec<(QM31, QM31, QM31)> = Vec::with_capacity(
            batch.columns_and_values.len(),
        );
        let mut j: usize = 0;
        while j < batch.columns_and_values.len()
            invariant
                j <= batch.columns_and_values.len(),
                random_coeff.wf(),
                alpha == random_coeff.spec_pow(j as nat),
                coeffs.len() == j,
                forall|t: int|
                    0 <= t < j ==> coeffs[t] == spec_line_coeffs(
                        PointSample { point: batch.point, value: batch.columns_and_values@[t].1 },
                        random_coeff.spec_pow(t as nat),
                    ),
            decreases batch.columns_and_values.len() - j,
        {
            proof {
                QM31::lemma_pow_wf(random_coeff, j as nat);
                QM31::lemma_mul_commutative(random_coeff.spec_pow(j as nat), random_coeff);
            }
            let sample = PointSample { point: batch.point, value: batch.columns_and_values[j].1 };
            coeffs.push(complex_conjugate_line_coeffs(&sample, alpha));
            alpha = alpha.mul(random_coeff);
            j = j + 1;
        }
        proof {
            assert(coeffs@ =~= spec_batch_line_coeffs(
                batch.point,
                batch.columns_and_values@,
                random_coeff,
            ));
        }
        out.push(coeffs);
        i = i + 1;
    }
    out
}

/// For each batch the coefficient that combines it with the next one:
/// `alpha` to the number of its columns.
pub fn batch_random_coeffs(sample_batches: &Vec<ColumnSampleBatch>, random_coeff: QM31) -> (r: Vec<
    QM31,
>)
    ensures
        r.len() == sample_batches.len(),
        forall|i: int|
            0 <= i < r.len() ==> r[i] == random_coeff.spec_pow(
                (#[trigger] sample_batches[i]).columns_and_values@.len(),
            ),
{
    let mut out: Vec<QM31> = Vec::with_capacity(sample_batches.len());
    let mut i: usize = 0;
    while i < sample_batches.len()
        invariant
            i <= sample_batches.len(),
            out.len() == i,
            forall|k: int|
                0 <= k < i ==> out[k] == random_coeff.spec_pow(
                    (#[trigger] sample_batches[k]).columns_and_values@.len(),
                ),
        decreases sample_batches.len() - i,
    {
        out.push(random_coeff.pow(sample_batches[i].columns_and_values.len() as u128));
        i = i + 1;
    }
    out
}

/// The denominator of a batch at a point of the domain: with the point of
/// the batch `Pr + u Pi`, the value `(Pr.x - x) Pi.y - (Pr.y - y) Pi.x`,
/// which vanishes where the domain point lies on the line through the point
/// of the batch and its conjugate.
pub open spec fn spec_denominator(point: SecureCirclePoint, domain_point: CirclePoint) -> CM31 {
    point.x.0.spec_sub_m31(domain_point.x).spec_mul(point.y.1).spec_sub(
        point.y.0.spec_sub_m31(domain_point.y).spec_mul(point.x.1),
    )
}

/// The inverse of each element by itself; zero stays zero.
fn inverse_of_each(column: &Vec<CM31>) -> (r: Vec<CM31>)
    ensures
        r.len() == column.len(),
        forall|i: int| 0 <= i < r.len() ==> r[i] == (#[trigger] column[i]).spec_inverse(),
{
    let mut out: Vec<CM31> = Vec::with_capacity(column.len());
    let mut i: usize = 0;
    while i < column.len()
        invariant
            i <= column.len(),
            out.len() == i,
            forall|k: int| 0 <= k < i ==> out[k] == (#[trigger] column[k]).spec_inverse(),
        decreases column.len() - i,
    {
        out.push(column[i].inverse_or_zero());
        i = i + 1;
    }
    out
}

/// The inverses of the denominators of the batches at a point of the
/// domain. A denominator that is zero, for a sample at the point itself,
/// stays zero.
pub fn denominator_inverses(sample_batches: &Vec<ColumnSampleBatch>, domain_point: CirclePoint) -> (r:
    Vec<CM31>)
    ensures
        r.len() == sample_batches.len(),
        forall|i: int|
            0 <= i < r.len() ==> r[i] == spec_denominator(
                (#[trigger] sample_batches[i]).point,
                domain_point,
            ).spec_inverse(),
{
    let mut denominators: Vec<CM31> = Vec::with_capacity(sample_batches.len());
    let mut i: usize = 0;
    while i < sample_batches.len()
        invariant
            i <= sample_batches.len(),
            denominators.len() == i,
            forall|k: int|
                0 <= k < i ==> denominators[k] == spec_denominator(
                    (#[trigger] sample_batches[k]).point,
                    domain_point,
                ),
        decreases sample_batches.len() - i,
    {
        let point = sample_batches[i].point;
        let prx = point.x.0;
        let pry = point.y.0;
        let pix = point.x.1;
        let piy = point.y.1;
        denominators.push(
            prx.sub_m31(domain_point.x).mul(piy).sub(pry.sub_m31(domain_point.y).mul(pix)),
        );
        i = i + 1;
    }
    match crate::fields::batch_inverse::batch_inverse(&denominators) {
        Ok(inverses) => inverses,
        Err(_) => inverse_of_each(&denominators),
    }
}

/// The constants of the quotients, which do not depend on the row.
pub struct QuotientConstants {
    /// The line coefficients of each column of each batch.
    pub line_coeffs: Vec<Vec<(QM31, QM31, QM31)>>,
    /// The coefficient that combines each batch with the next one.
    pub batch_random_coeffs: Vec<QM31>,
}

/// The constants of the quotients of the batches.
pub fn quotient_constants(sample_batches: &Vec<ColumnSampleBatch>, random_coeff: QM31) -> (r:
    QuotientConstants)
    ensures
        r.line_coeffs.len() == sample_batches.len(),
        forall|i: int|
            0 <= i < sample_batches.len() ==> (#[trigger] r.line_coeffs[i])@
                == spec_batch_line_coeffs(
                sample_batches[i].point,
                sample_batches[i].columns_and_values@,
                random_coeff,
            ),
        r.batch_random_coeffs.len() == sample_batches.len(),
        forall|i: int|
            0 <= i < sample_batches.len() ==> r.batch_random_coeffs[i] == random_coeff.spec_pow(
                (#[trigger] sample_batches[i]).columns_and_values@.len(),
            ),
{
    QuotientConstants {
        line_coeffs: column_line_coeffs(sample_batches, random_coeff),
        batch_random_coeffs: batch_random_coeffs(sample_batches, random_coeff),
    }
}

/// The numerator of a batch at a row: the sum over its first `n` columns of
/// `c * value - (a * y + b)`.
pub open spec fn spec_numerator(
    columns_and_values: Seq<(usize, QM31)>,
    line_coeffs: Seq<(QM31, QM31, QM31)>,
    queried_values_at_row: Seq<M31>,
    y: M31,
    n: nat,
) -> QM31
    decreases n,
{
    if n == 0 {
        QM31::spec_zero()
    } else {
        let k = (n - 1) as int;
        let (a, b, c) = line_coeffs[k];
        let value = c.spec_mul_m31(queried_values_at_row[columns_and_values[k].0 as int]);
        let linear_term = a.spec_mul_m31(y).spec_add(b);
        spec_numerator(
            columns_and_values,
            line_coeffs,
            queried_values_at_row,
            y,
            (n - 1) as nat,
        ).spec_add(value.spec_sub(linear_term))
    }
}

/// The batches as values: each point with the columns sampled there.
pub open spec fn spec_batches_view(sample_batches: Seq<ColumnSampleBatch>) -> Seq<
    (SecureCirclePoint, Seq<(usize, QM31)>),
> {
    Seq::new(
        sample_batches.len(),
        |i: int| (sample_batches[i].point, sample_batches[i].columns_and_values@),
    )
}

/// The line coefficients as sequences.
pub open spec fn spec_coeffs_view(line_coeffs: Seq<Vec<(QM31, QM31, QM31)>>) -> Seq<
    Seq<(QM31, QM31, QM31)>,
> {
    Seq::new(line_coeffs.len(), |i: int| line_coeffs[i]@)
}

/// The quotient of a row over its first `n` batches: each batch multiplies
/// what came before by its combining coefficient and adds its numerator
/// over its denominator.
pub open spec fn spec_row_quotients(
    batches: Seq<(SecureCirclePoint, Seq<(usize, QM31)>)>,
    queried_values_at_row: Seq<M31>,
    line_coeffs: Seq<Seq<(QM31, QM31, QM31)>>,
    batch_coeffs: Seq<QM31>,
    domain_point: CirclePoint,
    n: nat,
) -> QM31
    decreases n,
{
    if n == 0 {
        QM31::spec_zero()
    } else {
        let k = (n - 1) as int;
        let batch = batches[k];
        let numerator = spec_numerator(
            batch.1,
            line_coeffs[k],
            queried_values_at_row,
            domain_point.y,
            batch.1.len(),
        );
        spec_row_quotients(
            batches,
            queried_values_at_row,
            line_coeffs,
            batch_coeffs,
            domain_point,
            (n - 1) as nat,
        ).spec_mul(batch_coeffs[k]).spec_add(
            numerator.spec_mul_cm31(spec_denominator(batch.0, domain_point).spec_inverse()),
        )
    }
}

/// The line coefficients of every column of every batch.
pub open spec fn spec_all_line_coeffs(
    batches: Seq<(SecureCirclePoint, Seq<(usize, QM31)>)>,
    random_coeff: QM31,
) -> Seq<Seq<(QM31, QM31, QM31)>> {
    Seq::new(
        batches.len(),
        |i: int| spec_batch_line_coeffs(batches[i].0, batches[i].1, random_coeff),
    )
}

/// The combining coefficient of every batch.
pub open spec fn spec_all_batch_coeffs(
    batches: Seq<(SecureCirclePoint, Seq<(usize, QM31)>)>,
    random_coeff: QM31,
) -> Seq<QM31> {
    Seq::new(batches.len(), |i: int| random_coeff.spec_pow(batches[i].1.len()))
}

/// The quotient of a row: the random combination, by powers of `alpha`, of
/// the quotients of the sampled columns.
pub open spec fn spec_row_quotient(
    batches: Seq<(SecureCirclePoint, Seq<(usize, QM31)>)>,
    random_coeff: QM31,
    queried_values_at_row: Seq<M31>,
    domain_point: CirclePoint,
) -> QM31 {
    spec_row_quotients(
        batches,
        queried_values_at_row,
        spec_all_line_coeffs(batches, random_coeff),
        spec_all_batch_coeffs(batches, random_coeff),
        domain_point,
        batches.len(),
    )
}

/// Whether the constants belong to the batches and every column of a batch
/// has a value in the row.
pub open spec fn spec_row_fits(
    sample_batches: Seq<ColumnSampleBatch>,
    queried_values_at_row: Seq<M31>,
    quotient_constants: QuotientConstants,
) -> bool {
    &&& quotient_constants.line_coeffs.len() == sample_batches.len()
    &&& quotient_constants.batch_random_coeffs.len() == sample_batches.len()
    &&& forall|i: int|
        0 <= i < sample_batches.len() ==> {
            &&& (#[trigger] quotient_constants.line_coeffs[i]).len()
                == sample_batches[i].columns_and_values@.len()
            &&& forall|j: int|
                0 <= j < sample_batches[i].columns_and_values@.len() ==> (
                #[trigger] sample_batches[i].columns_and_values@[j]).0
                    < queried_values_at_row.len()
        }
}

/// The combination of the quotients of all the batches at one row.
pub fn accumulate_row_quotients(
    sample_batches: &Vec<ColumnSampleBatch>,
    queried_values_at_row: &Vec<M31>,
    quotient_constants: &QuotientConstants,
    domain_point: CirclePoint,
) -> (r: QM31)
    requires
        spec_row_fits(sample_batches@, queried_values_at_row@, *quotient_constants),
    ensures
        r == spec_row_quotients(
            spec_batches_view(sample_batches@),
            queried_values_at_row@,
            spec_coeffs_view(quotient_constants.line_coeffs@),
            quotient_constants.batch_random_coeffs@,
            domain_point,
            sample_batches.len() as nat,
        ),
{
    let denominator_inverses = denominator_inverses(sample_batches, domain_point);
    let mut row_accumulator = QM31::zero();
    let mut i: usize = 0;
    while i < sample_batches.len()
        invariant
            i <= sample_batches.len(),
            spec_row_fits(sample_batches@, queried_values_at_row@, *quotient_constants),
            denominator_inverses.len() == sample_batches.len(),
            forall|k: int|
                0 <= k < sample_batches.len() ==> denominator_inverses[k] == spec_denominator(
                    (#[trigger] sample_batches[k]).point,
                    domain_point,
                ).spec_inverse(),
            row_accumulator == spec_row_quotients(
                spec_batches_view(sample_batches@),
                queried_values_at_row@,
                spec_coeffs_view(quotient_constants.line_coeffs@),
                quotient_constants.batch_random_coeffs@,
                domain_point,
                i as nat,
            ),
        decreases sample_batches.len() - i,
    {
        let batch = &sample_batches[i];
        let line_coeffs = &quotient_constants.line_coeffs[i];
        assert(line_coeffs.len() == batch.columns_and_values@.len());
        let mut numerator = QM31::zero();
        let mut j: usize = 0;
        while j < batch.columns_and_values.len()
            invariant
                j <= batch.columns_and_values.len(),
                line_coeffs.len() == batch.columns_and_values@.len(),
                forall|t: int|
                    0 <= t < batch.columns_and_values@.len() ==> (
                    #[trigger] batch.columns_and_values@[t]).0 < queried_values_at_row.len(),
                numerator == spec_numerator(
                    batch.columns_and_values@,
                    line_coeffs@,
                    queried_values_at_row@,
                    domain_point.y,
                    j as nat,
                ),
            decreases batch.columns_and_values.len() - j,
        {
            let column_index = batch.columns_and_values[j].0;
            assert(batch.columns_and_values@[j as int].0 < queried_values_at_row.len());
            let (a, b, c) = line_coeffs[j];
            let value = c.mul_m31(queried_values_at_row[column_index]);
            let linear_term = a.mul_m31(domain_point.y).add(b);
            numerator = numerator.add(value.sub(linear_term));
            j = j + 1;
        }
        row_accumulator = row_accumulator.mul(quotient_constants.batch_random_coeffs[i]).add(
            numerator.mul_cm31(denominator_inverses[i]),
        );
        i = i + 1;
    }
    row_accumulator
}


/// The batches that the grouping of the samples gives, as values.
pub open spec fn spec_sample_batches(samples: Seq<Seq<PointSample>>) -> Seq<
    (SecureCirclePoint, Seq<(usize, QM31)>),
> {
    let groups = spec_group(samples);
    Seq::new(
        groups.len(),
        |i: int|
            (
                spec_key_point(groups[i].0),
                Seq::new(groups[i].1.len(), |j: int| spec_item_value(groups[i].1[j])),
            ),
    )
}

/// Whether every item of every group names a column below `bound`.
pub open spec fn spec_columns_below(entries: Seq<(PointKey, Seq<SampleItem>)>, bound: nat) -> bool {
    forall|e: int, j: int|
        0 <= e < entries.len() && 0 <= j < entries[e].1.len() ==> (#[trigger] entries[e].1[j]).0
            < bound
}

pub proof fn lemma_push_columns_below(
    entries: Seq<(PointKey, Seq<SampleItem>)>,
    key: PointKey,
    item: SampleItem,
    bound: nat,
)
    requires
        spec_columns_below(entries, bound),
        item.0 < bound,
    ensures
        spec_columns_below(spec_push_sample(entries, key, item), bound),
{
    let out = spec_push_sample(entries, key, item);
    assert forall|e: int, j: int| 0 <= e < out.len() && 0 <= j < out[e].1.len() implies (
    #[trigger] out[e].1[j]).0 < bound by {
        match crate::pcs::sample_map::spec_find(entries, key) {
            Some(i) => {
                if e == i {
                    if j < entries[i].1.len() {
                        assert(out[e].1[j] == entries[i].1[j]);
                    }
                } else {
                    assert(out[e].1[j] == entries[e].1[j]);
                }
            },
            None => {
                if e < entries.len() {
                    assert(out[e].1[j] == entries[e].1[j]);
                }
            },
        }
    }
}

pub proof fn lemma_group_column_below(
    entries: Seq<(PointKey, Seq<SampleItem>)>,
    column: usize,
    samples: Seq<PointSample>,
    bound: nat,
)
    requires
        spec_columns_below(entries, bound),
        column < bound,
    ensures
        spec_columns_below(spec_group_column(entries, column, samples), bound),
    decreases samples.len(),
{
    if samples.len() > 0 {
        lemma_group_column_below(entries, column, samples.drop_last(), bound);
        lemma_push_columns_below(
            spec_group_column(entries, column, samples.drop_last()),
            spec_point_key(samples.last().point),
            spec_sample_item(column, samples.last().value),
            bound,
        );
    }
}

/// Every column that the groups name is one of the columns.
pub proof fn lemma_group_below(samples: Seq<Seq<PointSample>>, bound: nat)
    requires
        samples.len() <= bound,
        bound <= usize::MAX,
    ensures
        spec_columns_below(spec_group(samples), bound),
    decreases samples.len(),
{
    if samples.len() > 0 {
        lemma_group_below(samples.drop_last(), bound);
        lemma_group_column_below(
            spec_group(samples.drop_last()),
            (samples.len() - 1) as usize,
            samples.last(),
            bound,
        );
    }
}

/// The values of the row `row` after the `at` values that were read: of
/// each tree as many as it has columns of the size. `None` where a tree has
/// too few.
pub open spec fn spec_row_values(
    queried_values: Seq<Vec<M31>>,
    at: Seq<usize>,
    n_columns: Seq<usize>,
    row: nat,
    trees: nat,
) -> Option<Seq<M31>>
    decreases trees,
{
    if trees == 0 {
        Some(Seq::empty())
    } else {
        let t = (trees - 1) as int;
        match spec_row_values(queried_values, at, n_columns, row, (trees - 1) as nat) {
            None => None,
            Some(head) => {
                let from = at[t] + row * n_columns[t];
                if from + n_columns[t] <= queried_values[t]@.len() {
                    Some(head + queried_values[t]@.subrange(from as int, from + n_columns[t]))
                } else {
                    None
                }
            },
        }
    }
}

/// Whether `answer` is the quotient at the `q`-th query: the row of the
/// query has a value for every sampled column, and the answer combines the
/// quotients of the row at the point of the query.
pub open spec fn spec_is_answer(
    log_size: u32,
    samples: Seq<Seq<PointSample>>,
    random_coeff: QM31,
    position: usize,
    queried_values: Seq<Vec<M31>>,
    at: Seq<usize>,
    n_columns: Seq<usize>,
    q: int,
    answer: QM31,
) -> bool {
    match spec_row_values(queried_values, at, n_columns, q as nat, n_columns.len()) {
        None => false,
        Some(row) => samples.len() <= row.len() && answer == spec_row_quotient(
            spec_sample_batches(samples),
            random_coeff,
            row,
            CanonicCoset::spec_circle_domain_at(
                log_size as nat,
                crate::utils::spec_bit_reverse_index(position as nat, log_size as nat),
            ),
        ),
    }
}

/// The quotient at the `q`-th query, where its row has its values.
pub open spec fn spec_answer(
    log_size: u32,
    samples: Seq<Seq<PointSample>>,
    random_coeff: QM31,
    position: usize,
    queried_values: Seq<Vec<M31>>,
    at: Seq<usize>,
    n_columns: Seq<usize>,
    q: int,
) -> QM31 {
    spec_row_quotient(
        spec_sample_batches(samples),
        random_coeff,
        spec_row_values(queried_values, at, n_columns, q as nat, n_columns.len()).unwrap(),
        CanonicCoset::spec_circle_domain_at(
            log_size as nat,
            crate::utils::spec_bit_reverse_index(position as nat, log_size as nat),
        ),
    )
}

/// Whether the row `q` lacks values: a tree has too few, or there are fewer
/// values in the row than samples.
pub open spec fn spec_row_lacks(
    queried_values: Seq<Vec<M31>>,
    at: Seq<usize>,
    n_columns: Seq<usize>,
    n_samples: nat,
    q: int,
) -> bool {
    match spec_row_values(queried_values, at, n_columns, q as nat, n_columns.len()) {
        Some(row) => n_samples > row.len(),
        None => true,
    }
}

/// The values of the quotients at the queries of the columns of one size:
/// for each query the combination of the quotients of the row, whose values
/// are read from the queried values of the trees, as many of each tree as
/// it has columns of the size. The cursors tell how far each tree was read
/// and move on. The answer is an error where there are more samples than
/// columns, and where a tree has too few values.
pub fn fri_answers_for_log_size(
    log_size: u32,
    samples: &Vec<&Vec<PointSample>>,
    random_coeff: QM31,
    query_positions: &Vec<usize>,
    queried_values: &Vec<Vec<M31>>,
    cursors: &mut Vec<usize>,
    n_columns: &Vec<usize>,
) -> (r: Result<Vec<QM31>, VerificationError>)
    requires
        1 <= log_size <= 30,
        queried_values.len() == n_columns.len(),
        old(cursors).len() == n_columns.len(),
    ensures
        final(cursors).len() == old(cursors).len(),
        match r {
            Ok(answers) => {
                &&& answers.len() == query_positions.len()
                &&& forall|q: int|
                    0 <= q < query_positions.len() ==> spec_is_answer(
                        log_size,
                        spec_samples_view(samples@),
                        random_coeff,
                        query_positions[q],
                        queried_values@,
                        old(cursors)@,
                        n_columns@,
                        q,
                        #[trigger] answers[q],
                    )
                &&& forall|t: int|
                    0 <= t < n_columns.len() ==> (#[trigger] final(cursors)[t]) == old(cursors)[t]
                        + query_positions.len() * n_columns[t]
            },
            Err(_) => exists|q: int|
                0 <= q < query_positions.len() && #[trigger] spec_row_lacks(
                    queried_values@,
                    old(cursors)@,
                    n_columns@,
                    samples.len() as nat,
                    q,
                ),
        },
{
    let sample_batches = ColumnSampleBatch::new_vec(samples);
    let quotient_constants = quotient_constants(&sample_batches, random_coeff);
    let commitment_domain = CanonicCoset::new(log_size).circle_domain();
    let ghost batches = spec_sample_batches(spec_samples_view(samples@));
    proof {
        assert(spec_batches_view(sample_batches@) =~= batches) by {
            assert forall|i: int| 0 <= i < sample_batches.len() implies spec_batches_view(
                sample_batches@,
            )[i] == batches[i] by {
                assert(sample_batches[i].columns_and_values@ =~= batches[i].1);
            }
        }
        assert(spec_coeffs_view(quotient_constants.line_coeffs@) =~= spec_all_line_coeffs(
            batches,
            random_coeff,
        ));
        assert(quotient_constants.batch_random_coeffs@ =~= spec_all_batch_coeffs(
            batches,
            random_coeff,
        ));
    }
    let mut quotient_evals_at_queries: Vec<QM31> = Vec::with_capacity(query_positions.len());
    let mut q: usize = 0;
    while q < query_positions.len()
        invariant
            q <= query_positions.len(),
            1 <= log_size <= 30,
            commitment_domain.wf(),
            commitment_domain.spec_log_size() == log_size,
            commitment_domain == CanonicCoset::spec_circle_domain_of(log_size as nat),
            queried_values.len() == n_columns.len(),
            cursors.len() == n_columns.len(),
            old(cursors).len() == n_columns.len(),
            quotient_constants.batch_random_coeffs.len() == sample_batches.len(),
            batches == spec_sample_batches(spec_samples_view(samples@)),
            spec_batches_view(sample_batches@) == batches,
            spec_coeffs_view(quotient_constants.line_coeffs@) == spec_all_line_coeffs(
                batches,
                random_coeff,
            ),
            quotient_constants.batch_random_coeffs@ == spec_all_batch_coeffs(batches, random_coeff),
            quotient_constants.line_coeffs.len() == sample_batches.len(),
            quotient_evals_at_queries.len() == q,
            forall|t: int|
                0 <= t < n_columns.len() ==> (#[trigger] cursors[t]) == old(cursors)[t] + q
                    * n_columns[t],
            forall|k: int|
                0 <= k < q ==> spec_is_answer(
                    log_size,
                    spec_samples_view(samples@),
                    random_coeff,
                    query_positions[k],
                    queried_values@,
                    old(cursors)@,
                    n_columns@,
                    k,
                    #[trigger] quotient_evals_at_queries[k],
                ),
        decreases query_positions.len() - q,
    {
        let domain_point = commitment_domain.at(bit_reverse_index(query_positions[q], log_size));
        let ghost start = cursors@;
        let mut row: Vec<M31> = Vec::new();
        let mut t: usize = 0;
        while t < n_columns.len()
            invariant
                t <= n_columns.len(),
                q < query_positions.len(),
                queried_values.len() == n_columns.len(),
                cursors.len() == n_columns.len(),
                start.len() == n_columns.len(),
                old(cursors).len() == n_columns.len(),
                forall|u: int|
                    0 <= u < n_columns.len() ==> start[u] == old(cursors)[u] + q * n_columns[u],
                forall|u: int| t <= u < n_columns.len() ==> cursors[u] == start[u],
                forall|u: int| 0 <= u < t ==> cursors[u] == start[u] + n_columns[u],
                spec_row_values(queried_values@, old(cursors)@, n_columns@, q as nat, t as nat)
                    == Some(row@),
            decreases n_columns.len() - t,
        {
            let from = cursors[t];
            let n = n_columns[t];
            proof {
                assert(start[t as int] == old(cursors)[t as int] + q * n_columns[t as int]);
            }
            if n > queried_values[t].len() || from > queried_values[t].len() - n {
                proof {
                    lemma_row_values_none(
                        queried_values@,
                        old(cursors)@,
                        n_columns@,
                        q as nat,
                        (t + 1) as nat,
                        n_columns.len() as nat,
                    );
                    assert(spec_row_lacks(
                        queried_values@,
                        old(cursors)@,
                        n_columns@,
                        samples.len() as nat,
                        q as int,
                    ));
                    assert(cursors.len() == old(cursors).len());
                    assert(0 <= q < query_positions.len());
                    assert(exists|w: int|
                        0 <= w < query_positions.len() && #[trigger] spec_row_lacks(
                            queried_values@,
                            old(cursors)@,
                            n_columns@,
                            samples.len() as nat,
                            w,
                        ));
                }
                return Err(
                    VerificationError::InvalidStructure(
                        "Not enough queried values".to_string(),
                    ),
                );
            }
            let ghost before = row@;
            let mut k: usize = 0;
            while k < n
                invariant
                    k <= n,
                    from + n <= queried_values[t as int].len(),
                    t < queried_values.len(),
                    row@ == before + queried_values[t as int]@.subrange(from as int, from + k),
                decreases n - k,
            {
                row.push(queried_values[t][from + k]);
                proof {
                    assert(row@ =~= before + queried_values[t as int]@.subrange(
                        from as int,
                        from + k + 1,
                    ));
                }
                k = k + 1;
            }
            cursors.set(t, from + n);
            t = t + 1;
        }
        if samples.len() > row.len() {
            assert(spec_row_lacks(
                queried_values@,
                old(cursors)@,
                n_columns@,
                samples.len() as nat,
                q as int,
            ));
            return Err(
                VerificationError::InvalidStructure("More samples than columns".to_string()),
            );
        }
        proof {
            lemma_group_below(spec_samples_view(samples@), row.len() as nat);
            let groups = spec_group(spec_samples_view(samples@));
            assert(spec_batches_view(sample_batches@).len() == sample_batches.len());
            assert(batches.len() == groups.len());
            assert forall|i: int| 0 <= i < sample_batches.len() implies {
                &&& (#[trigger] quotient_constants.line_coeffs[i]).len()
                    == sample_batches[i].columns_and_values@.len()
                &&& forall|j: int|
                    0 <= j < sample_batches[i].columns_and_values@.len() ==> (
                    #[trigger] sample_batches[i].columns_and_values@[j]).0 < row@.len()
            } by {
                assert(spec_batches_view(sample_batches@)[i] == batches[i]);
                assert(sample_batches[i].columns_and_values@ == batches[i].1);
                assert(batches[i].1.len() == groups[i].1.len());
                assert(spec_coeffs_view(quotient_constants.line_coeffs@)[i]
                    == spec_all_line_coeffs(batches, random_coeff)[i]);
                assert(quotient_constants.line_coeffs[i]@.len()
                    == sample_batches[i].columns_and_values@.len());
                assert forall|j: int|
                    0 <= j < sample_batches[i].columns_and_values@.len() implies (
                #[trigger] sample_batches[i].columns_and_values@[j]).0 < row@.len() by {
                    assert(sample_batches[i].columns_and_values@[j] == spec_item_value(
                        groups[i].1[j],
                    ));
                    assert(groups[i].1[j].0 < row@.len());
                }
            }
            assert(quotient_constants.line_coeffs.len() == sample_batches.len());
            assert(quotient_constants.batch_random_coeffs.len() == sample_batches.len());
            assert(spec_row_fits(sample_batches@, row@, quotient_constants));
            assert forall|u: int| 0 <= u < n_columns.len() implies (#[trigger] cursors[u])
                == old(cursors)[u] + (q + 1) * n_columns[u] by {
                assert((q + 1) * n_columns[u] == q * n_columns[u] + n_columns[u])
                    by (nonlinear_arith);
            }
        }
        let answer = accumulate_row_quotients(
            &sample_batches,
            &row,
            &quotient_constants,
            domain_point,
        );
        proof {
            assert(spec_row_values(
                queried_values@,
                old(cursors)@,
                n_columns@,
                q as nat,
                n_columns.len() as nat,
            ) == Some(row@));
            assert(domain_point == CanonicCoset::spec_circle_domain_at(
                log_size as nat,
                crate::utils::spec_bit_reverse_index(
                    query_positions[q as int] as nat,
                    log_size as nat,
                ),
            ));
            assert(sample_batches.len() == batches.len());
            assert(answer == spec_row_quotient(batches, random_coeff, row@, domain_point));
            assert(spec_is_answer(
                log_size,
                spec_samples_view(samples@),
                random_coeff,
                query_positions[q as int],
                queried_values@,
                old(cursors)@,
                n_columns@,
                q as int,
                answer,
            ));
        }
        let ghost answers_before = quotient_evals_at_queries@;
        quotient_evals_at_queries.push(answer);
        proof {
            assert forall|k: int| 0 <= k < q implies quotient_evals_at_queries[k]
                == answers_before[k] by {}
        }
        q = q + 1;
    }
    Ok(quotient_evals_at_queries)
}

/// A row that lacks values in one tree lacks them whatever follows.
pub proof fn lemma_row_values_none(
    queried_values: Seq<Vec<M31>>,
    at: Seq<usize>,
    n_columns: Seq<usize>,
    row: nat,
    upto: nat,
    trees: nat,
)
    requires
        upto <= trees,
        spec_row_values(queried_values, at, n_columns, row, upto).is_none(),
    ensures
        spec_row_values(queried_values, at, n_columns, row, trees).is_none(),
    decreases trees - upto,
{
    if upto < trees {
        lemma_row_values_none(queried_values, at, n_columns, row, upto, (trees - 1) as nat);
    }
}

} // verus!
