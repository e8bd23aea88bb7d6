//! The columns of cumulative sums that a prover commits to for the lookups
//! of a component: one column of extension values for each batch of
//! fractions, each adding its fractions to the column before, and the last
//! one summed over the rows.

use vstd::prelude::*;
use vstd::arithmetic::power2::{lemma2_to64, pow2};
use crate::fields::cm31::CM31;
use crate::fields::fermat::lemma_inverse;
use crate::fields::m31::M31;
use crate::fields::qm31::QM31;
use crate::poly::domain::CanonicCoset;
use crate::prover::poly::circle::CircleEvaluation;
use crate::utils::{
    bit_reverse_index, circle_domain_index_to_coset_index, coset_index_to_circle_domain_index,
    lemma_bit_reverse_bound, lemma_pow2_monotone, pow2_usize, spec_bit_reverse_index,
    spec_coset_index_to_circle_domain_index,
};

verus! {

/// The row, in the bit-reversed order of the circle domain, of the `i`-th
/// point of the trace domain.
pub open spec fn spec_row_of(i: nat, log_size: u32) -> nat {
    spec_bit_reverse_index(
        spec_coset_index_to_circle_domain_index(i, log_size as nat),
        log_size as nat,
    )
}

/// The sum of the values at the first `n` points of the trace domain.
pub open spec fn spec_prefix_sum(values: Seq<QM31>, log_size: u32, n: nat) -> QM31
    decreases n,
{
    if n == 0 {
        QM31::spec_zero()
    } else {
        spec_prefix_sum(values, log_size, (n - 1) as nat).spec_add(
            values[spec_row_of((n - 1) as nat, log_size) as int],
        )
    }
}

/// The column of a batch: at every row the fraction of the row added to
/// the column before. A fraction with the denominator zero adds nothing.
pub open spec fn spec_fraction_column(
    numerator: Seq<QM31>,
    denom: Seq<QM31>,
    previous: Option<Seq<QM31>>,
) -> Seq<QM31> {
    Seq::new(
        numerator.len(),
        |row: int|
            {
                let value = numerator[row].spec_mul(denom[row].spec_inverse());
                match previous {
                    Some(column) => value.spec_add(column[row]),
                    None => value,
                }
            },
    )
}

/// The share of every row in the claimed sum: the sum over the number of
/// rows.
pub open spec fn spec_cumsum_shift(claimed_sum: QM31, log_size: u32) -> QM31 {
    claimed_sum.spec_mul_m31(M31::from_int(pow2(log_size as nat) as int).spec_inverse())
}

/// The values less the shift.
pub open spec fn spec_shifted(values: Seq<QM31>, shift: QM31) -> Seq<QM31> {
    Seq::new(values.len(), |row: int| values[row].spec_sub(shift))
}

/// The `k`-th coordinates of the values.
pub open spec fn spec_coordinate(values: Seq<QM31>, k: int) -> Seq<M31> {
    Seq::new(values.len(), |row: int| values[row].spec_to_m31_array()[k])
}

/// Generates the columns of cumulative sums of one component.
pub struct LogupTraceGenerator {
    pub log_size: u32,
    /// The columns that were finished, each with the columns before added
    /// in.
    pub trace: Vec<Vec<QM31>>,
    /// The denominators of the column that is being written.
    pub denom: Vec<QM31>,
}

/// The numerators of the column that is being written.
pub struct LogupColGenerator {
    pub numerator: Vec<QM31>,
}

/// The columns as sequences.
pub open spec fn spec_trace_columns(trace: Seq<Vec<QM31>>) -> Seq<Seq<QM31>> {
    Seq::new(trace.len(), |c: int| trace[c]@)
}

impl LogupTraceGenerator {
    /// The columns have one value for each row.
    pub open spec fn wf(self) -> bool {
        &&& 1 <= self.log_size <= 30
        &&& self.denom.len() == pow2(self.log_size as nat)
        &&& forall|c: int|
            0 <= c < self.trace.len() ==> (#[trigger] self.trace[c]).len() == pow2(
                self.log_size as nat,
            )
    }

    pub fn new(log_size: u32) -> (r: LogupTraceGenerator)
        requires
            1 <= log_size <= 30,
        ensures
            r.wf(),
            r.log_size == log_size,
            r.trace.len() == 0,
    {
        LogupTraceGenerator { log_size, trace: Vec::new(), denom: zeros(pow2_usize(log_size)) }
    }

    /// Starts a column.
    pub fn new_col(&self) -> (r: LogupColGenerator)
        requires
            self.wf(),
        ensures
            r.numerator@ == Seq::new(pow2(self.log_size as nat), |row: int| QM31::spec_zero()),
    {
        LogupColGenerator { numerator: zeros(pow2_usize(self.log_size)) }
    }

    /// Writes and finishes a column of the given fractions, one for each
    /// row, as numerator and denominator.
    pub fn col_from_iter(&mut self, fracs: &Vec<(QM31, QM31)>)
        requires
            old(self).wf(),
            fracs.len() == pow2(old(self).log_size as nat),
        ensures
            final(self).wf(),
            final(self).log_size == old(self).log_size,
            spec_trace_columns(final(self).trace@) == spec_trace_columns(old(self).trace@).push(
                spec_fraction_column(
                    Seq::new(fracs.len() as nat, |row: int| fracs[row].0),
                    Seq::new(fracs.len() as nat, |row: int| fracs[row].1),
                    if old(self).trace.len() == 0 {
                        None
                    } else {
                        Some(old(self).trace[old(self).trace.len() - 1]@)
                    },
                ),
            ),
    {
        let mut col = self.new_col();
        let mut row: usize = 0;
        while row < fracs.len()
            invariant
                row <= fracs.len(),
                self.wf(),
                self.log_size == old(self).log_size,
                self.trace == old(self).trace,
                fracs.len() == pow2(self.log_size as nat),
                col.numerator.len() == fracs.len(),
                forall|k: int| 0 <= k < row ==> col.numerator[k] == fracs[k].0,
                forall|k: int| 0 <= k < row ==> self.denom[k] == fracs[k].1,
            decreases fracs.len() - row,
        {
            col.write_frac(self, row, fracs[row].0, fracs[row].1);
            row = row + 1;
        }
        proof {
            assert(col.numerator@ =~= Seq::new(fracs.len() as nat, |row: int| fracs[row].0));
            assert(self.denom@ =~= Seq::new(fracs.len() as nat, |row: int| fracs[row].1));
        }
        col.finalize_col(self);
    }

    /// Finishes the trace: the last column gives the claimed sum, the sum
    /// of its values along the trace domain; every value of it then loses
    /// its share of that sum, and the column is summed along the trace
    /// domain. The coordinates of
    /// the columns, four for each, come with the claimed sum.
    pub fn finalize_last(self) -> (r: (Vec<CircleEvaluation>, QM31))
        requires
            self.wf(),
            self.trace.len() >= 1,
        ensures
            ({
                let n = self.trace.len() as int;
                let last = self.trace[n - 1]@;
                let claimed_sum = spec_prefix_sum(last, self.log_size, last.len());
                let shifted = spec_shifted(last, spec_cumsum_shift(claimed_sum, self.log_size));
                &&& r.1 == claimed_sum
                &&& r.0.len() == 4 * n
                &&& forall|k: int|
                    0 <= k < 4 * n ==> {
                        &&& (#[trigger] r.0[k]).wf()
                        &&& r.0[k].domain == CanonicCoset::spec_circle_domain_of(self.log_size as nat)
                    }
                &&& forall|k: int|
                    0 <= k < 4 * (n - 1) ==> (#[trigger] r.0[k]).values@ == spec_coordinate(
                        self.trace[k / 4]@,
                        k % 4,
                    )
                &&& forall|k: int, row: int|
                    4 * (n - 1) <= k < 4 * n && 0 <= row < pow2(self.log_size as nat) ==> (
                    #[trigger] r.0[k]).values@[row] == spec_prefix_sum(
                        shifted,
                        self.log_size,
                        #[trigger] spec_position_of(row as nat, self.log_size) + 1,
                    ).spec_to_m31_array()[k % 4]
            }),
    {
        let log_size = self.log_size;
        let size = pow2_usize(log_size);
        let mut trace = self.trace;
        let ghost all = trace@;
        let last = trace.pop().unwrap();
        proof {
            assert(last == all[all.len() - 1]);
            assert(last.len() == size);
        }
        // The claimed sum, along the trace domain.
        let mut claimed_sum = QM31::zero();
        let mut i: usize = 0;
        while i < size
            invariant
                i <= size,
                size == pow2(log_size as nat),
                1 <= log_size <= 30,
                last.len() == size,
                claimed_sum == spec_prefix_sum(last@, log_size, i as nat),
            decreases size - i,
        {
            let at = bit_reverse_index(coset_index_to_circle_domain_index(i, log_size), log_size);
            proof {
                lemma_bit_reverse_bound(
                    spec_coset_index_to_circle_domain_index(i as nat, log_size as nat),
                    log_size as nat,
                );
            }
            claimed_sum = claimed_sum.add(last[at]);
            i = i + 1;
        }
        proof {
            lemma2_to64();
            lemma_pow2_monotone(log_size as nat, 30);
        }
        let shift = claimed_sum.mul_m31(M31::from_u32(size as u32).inverse_or_zero());
        let ghost shifted = spec_shifted(last@, shift);
        // The sums along the trace domain.
        let mut sums: Vec<QM31> = Vec::with_capacity(size);
        let mut acc = QM31::zero();
        let mut i: usize = 0;
        while i < size
            invariant
                i <= size,
                size == pow2(log_size as nat),
                1 <= log_size <= 30,
                last.len() == size,
                shifted == spec_shifted(last@, shift),
                sums.len() == i,
                acc == spec_prefix_sum(shifted, log_size, i as nat),
                forall|j: int|
                    0 <= j < i ==> sums[j] == spec_prefix_sum(shifted, log_size, (j + 1) as nat),
            decreases size - i,
        {
            let at = bit_reverse_index(coset_index_to_circle_domain_index(i, log_size), log_size);
            proof {
                lemma_bit_reverse_bound(
                    spec_coset_index_to_circle_domain_index(i as nat, log_size as nat),
                    log_size as nat,
                );
            }
            acc = acc.add(last[at].sub(shift));
            sums.push(acc);
            i = i + 1;
        }
        // The last column by rows.
        let mut summed: Vec<QM31> = Vec::with_capacity(size);
        let mut row: usize = 0;
        while row < size
            invariant
                row <= size,
                size == pow2(log_size as nat),
                1 <= log_size <= 30,
                sums.len() == size,
                summed.len() == row,
                forall|j: int|
                    0 <= j < size ==> sums[j] == spec_prefix_sum(shifted, log_size, (j + 1) as nat),
                forall|k: int|
                    0 <= k < row ==> summed[k] == spec_prefix_sum(
                        shifted,
                        log_size,
                        spec_position_of(k as nat, log_size) + 1,
                    ),
            decreases size - row,
        {
            proof {
                lemma_bit_reverse_bound(row as nat, log_size as nat);
            }
            let at = circle_domain_index_to_coset_index(bit_reverse_index(row, log_size), log_size);
            summed.push(sums[at]);
            row = row + 1;
        }
        trace.push(summed);
        // The coordinates of the columns.
        let domain = CanonicCoset::new(log_size).circle_domain();
        let mut out: Vec<CircleEvaluation> = Vec::new();
        let mut c: usize = 0;
        while c < trace.len()
            invariant
                c <= trace.len(),
                trace.len() == all.len(),
                size == pow2(log_size as nat),
                domain == CanonicCoset::spec_circle_domain_of(log_size as nat),
                domain.wf(),
                domain.spec_log_size() == log_size,
                forall|k: int| 0 <= k < trace.len() ==> (#[trigger] trace[k]).len() == size,
                out.len() == 4 * c,
                forall|k: int|
                    0 <= k < out.len() ==> {
                        &&& (#[trigger] out[k]).wf()
                        &&& out[k].domain == domain
                        &&& out[k].values@ == spec_coordinate(trace[k / 4]@, k % 4)
                    },
            decreases trace.len() - c,
        {
            let mut k: usize = 0;
            while k < 4
                invariant
                    k <= 4,
                    c < trace.len(),
                    size == pow2(log_size as nat),
                    domain.wf(),
                    domain.spec_log_size() == log_size,
                    trace[c as int].len() == size,
                    out.len() == 4 * c + k,
                    forall|j: int|
                        0 <= j < out.len() ==> {
                            &&& (#[trigger] out[j]).wf()
                            &&& out[j].domain == domain
                            &&& out[j].values@ == spec_coordinate(trace[j / 4]@, j % 4)
                        },
                decreases 4 - k,
            {
                let column = &trace[c];
                let mut values: Vec<M31> = Vec::with_capacity(size);
                let mut row: usize = 0;
                while row < size
                    invariant
                        row <= size,
                        k < 4,
                        column.len() == size,
                        values.len() == row,
                        forall|j: int|
                            0 <= j < row ==> values[j] == column[j].spec_to_m31_array()[k as int],
                    decreases size - row,
                {
                    values.push(column[row].to_m31_array()[k]);
                    row = row + 1;
                }
                proof {
                    assert(values@ =~= spec_coordinate(column@, k as int));
                }
                out.push(CircleEvaluation::new(domain, values));
                k = k + 1;
            }
            c = c + 1;
        }
        proof {
            let n = all.len() as int;
            assert forall|k: int| 0 <= k < 4 * (n - 1) implies (#[trigger] out[k]).values@
                == spec_coordinate(all[k / 4]@, k % 4) by {
                assert(trace[k / 4] == all[k / 4]);
            }
            assert forall|k: int, row: int|
                4 * (n - 1) <= k < 4 * n && 0 <= row < pow2(log_size as nat) implies (
            #[trigger] out[k]).values@[row] == spec_prefix_sum(
                shifted,
                log_size,
                #[trigger] spec_position_of(row as nat, log_size) + 1,
            ).spec_to_m31_array()[k % 4] by {
                assert(k / 4 == n - 1);
                assert(trace[k / 4]@ == summed@);
            }
        }
        (out, claimed_sum)
    }
}

/// The position, in the order of the trace domain, of the point of a row.
pub open spec fn spec_position_of(row: nat, log_size: u32) -> nat {
    crate::utils::spec_circle_domain_index_to_coset_index(
        spec_bit_reverse_index(row, log_size as nat),
        log_size as nat,
    )
}

impl LogupColGenerator {
    /// Writes the fraction of a row.
    pub fn write_frac(
        &mut self,
        generator: &mut LogupTraceGenerator,
        row: usize,
        numerator: QM31,
        denom: QM31,
    )
        requires
            old(generator).wf(),
            old(self).numerator.len() == pow2(old(generator).log_size as nat),
            row < pow2(old(generator).log_size as nat),
        ensures
            final(generator).wf(),
            final(generator).log_size == old(generator).log_size,
            final(generator).trace == old(generator).trace,
            final(generator).denom@ == old(generator).denom@.update(row as int, denom),
            final(self).numerator@ == old(self).numerator@.update(row as int, numerator),
    {
        self.numerator.set(row, numerator);
        generator.denom.set(row, denom);
    }

    /// Finishes the column: every fraction is added to the column before.
    pub fn finalize_col(self, generator: &mut LogupTraceGenerator)
        requires
            old(generator).wf(),
            self.numerator.len() == pow2(old(generator).log_size as nat),
        ensures
            final(generator).wf(),
            final(generator).log_size == old(generator).log_size,
            final(generator).denom == old(generator).denom,
            spec_trace_columns(final(generator).trace@) == spec_trace_columns(
                old(generator).trace@,
            ).push(
                spec_fraction_column(
                    self.numerator@,
                    old(generator).denom@,
                    if old(generator).trace.len() == 0 {
                        None
                    } else {
                        Some(old(generator).trace[old(generator).trace.len() - 1]@)
                    },
                ),
            ),
    {
        let size = self.numerator.len();
        let n = generator.trace.len();
        let ghost previous = if n == 0 {
            None
        } else {
            Some(generator.trace[n - 1]@)
        };
        let ghost want = spec_fraction_column(self.numerator@, generator.denom@, previous);
        let mut column: Vec<QM31> = Vec::with_capacity(size);
        let mut row: usize = 0;
        while row < size
            invariant
                row <= size,
                generator.wf(),
                *generator == *old(generator),
                n == generator.trace.len(),
                size == self.numerator.len(),
                size == pow2(generator.log_size as nat),
                want == spec_fraction_column(self.numerator@, generator.denom@, previous),
                previous == (if n == 0 {
                    None
                } else {
                    Some(generator.trace[n - 1]@)
                }),
                column.len() == row,
                forall|k: int| 0 <= k < row ==> column[k] == want[k],
            decreases size - row,
        {
            let value = self.numerator[row].mul(generator.denom[row].inverse_or_zero());
            if n == 0 {
                column.push(value);
            } else {
                assert(generator.trace[n - 1].len() == size);
                column.push(value.add(generator.trace[n - 1][row]));
            }
            row = row + 1;
        }
        let ghost before = spec_trace_columns(generator.trace@);
        generator.trace.push(column);
        proof {
            assert(column@ =~= want);
            assert(spec_trace_columns(generator.trace@) =~= before.push(want));
        }
    }
}

/// As many zeros as asked for.
fn zeros(n: usize) -> (r: Vec<QM31>)
    ensures
        r@ == Seq::new(n as nat, |row: int| QM31::spec_zero()),
{
    let mut out: Vec<QM31> = Vec::with_capacity(n);
    let mut i: usize = 0;
    while i < n
        invariant
            i <= n,
            out.len() == i,
            forall|k: int| 0 <= k < i ==> out[k] == QM31::spec_zero(),
        decreases n - i,
    {
        out.push(QM31::zero());
        i = i + 1;
    }
    proof {
        assert(out@ =~= Seq::new(n as nat, |row: int| QM31::spec_zero()));
    }
    out
}

/// The sum of values that each lost a share is the sum of the values less
/// the shares: in one coordinate.
proof fn lemma_shifted_step(a: M31, b: M31, x: M31, s: M31, k: nat)
    requires
        a.wf(),
        x.wf(),
        s.wf(),
        b == s.spec_mul(M31::from_int(k as int)),
    ensures
        a.spec_sub(b).spec_add(x.spec_sub(s)) == a.spec_add(x).spec_sub(
            s.spec_mul(M31::from_int((k + 1) as int)),
        ),
{
    M31::lemma_wf_from_int(a);
    M31::lemma_wf_from_int(x);
    M31::lemma_wf_from_int(s);
    M31::lemma_hom_mul(s@, k as int);
    M31::lemma_hom_mul(s@, (k + 1) as int);
    M31::lemma_hom_sub(a@, s@ * k);
    M31::lemma_hom_sub(x@, s@);
    M31::lemma_hom_add(a@ - s@ * k, x@ - s@);
    M31::lemma_hom_add(a@, x@);
    M31::lemma_hom_sub(a@ + x@, s@ * (k + 1));
    assert((a@ - s@ * k) + (x@ - s@) == (a@ + x@) - s@ * (k + 1)) by (nonlinear_arith);
}

/// The sum, along the trace domain, of values that each lost `shift` is
/// the sum of the values less `shift` times their number.
pub proof fn lemma_prefix_sum_of_shifted(values: Seq<QM31>, shift: QM31, log_size: u32, n: nat)
    requires
        1 <= log_size <= 30,
        n <= pow2(log_size as nat),
        values.len() == pow2(log_size as nat),
        forall|row: int| 0 <= row < values.len() ==> (#[trigger] values[row]).wf(),
        shift.wf(),
    ensures
        spec_prefix_sum(values, log_size, n).wf(),
        spec_prefix_sum(spec_shifted(values, shift), log_size, n) == spec_prefix_sum(
            values,
            log_size,
            n,
        ).spec_sub(shift.spec_mul_m31(M31::from_int(n as int))),
    decreases n,
{
    let zero = QM31::spec_zero();
    if n == 0 {
        M31::lemma_from_int_range(0);
        M31::lemma_mul_zero(shift.0.0);
        M31::lemma_mul_zero(shift.0.1);
        M31::lemma_mul_zero(shift.1.0);
        M31::lemma_mul_zero(shift.1.1);
        M31::lemma_hom_sub(0, 0);
    } else {
        let k = (n - 1) as nat;
        lemma_prefix_sum_of_shifted(values, shift, log_size, k);
        let row = spec_row_of(k, log_size) as int;
        vstd::arithmetic::power2::lemma_pow2_unfold(log_size as nat);
        lemma_bit_reverse_bound(
            spec_coset_index_to_circle_domain_index(k, log_size as nat),
            log_size as nat,
        );
        let x = values[row];
        assert(x.wf());
        let a = spec_prefix_sum(values, log_size, k);
        let b = shift.spec_mul_m31(M31::from_int(k as int));
        QM31::lemma_results_wf(a, x);
        lemma_shifted_step(a.0.0, b.0.0, x.0.0, shift.0.0, k);
        lemma_shifted_step(a.0.1, b.0.1, x.0.1, shift.0.1, k);
        lemma_shifted_step(a.1.0, b.1.0, x.1.0, shift.1.0, k);
        lemma_shifted_step(a.1.1, b.1.1, x.1.1, shift.1.1, k);
    }
}

/// A value times the inverse of a number other than zero, times the
/// number, is the value; and a value less itself is zero: in one coordinate.
proof fn lemma_share_step(c: M31, w: M31, n: M31)
    requires
        c.wf(),
        w.spec_mul(n) == M31::spec_one(),
    ensures
        c.spec_sub(c.spec_mul(w).spec_mul(n)) == M31::spec_zero(),
{
    M31::lemma_mul_associative(c, w, n);
    M31::lemma_mul_one(c);
    M31::lemma_wf_from_int(c);
    M31::lemma_hom_sub(c@, c@);
}

/// The column of cumulative sums closes: along the trace domain the values
/// of the last column, each less its share of the claimed sum, sum to
/// zero. This is what the constraint of the last batch needs at the first
/// row, whose row before is the last one.
pub proof fn lemma_cumulative_sum_closes(values: Seq<QM31>, log_size: u32)
    requires
        1 <= log_size <= 30,
        values.len() == pow2(log_size as nat),
        forall|row: int| 0 <= row < values.len() ==> (#[trigger] values[row]).wf(),
    ensures
        ({
            let claimed_sum = spec_prefix_sum(values, log_size, values.len());
            spec_prefix_sum(
                spec_shifted(values, spec_cumsum_shift(claimed_sum, log_size)),
                log_size,
                values.len(),
            ) == QM31::spec_zero()
        }),
{
    let size = values.len();
    let claimed_sum = spec_prefix_sum(values, log_size, size);
    let n = M31::from_int(size as int);
    let w = n.spec_inverse();
    let shift = spec_cumsum_shift(claimed_sum, log_size);
    lemma2_to64();
    lemma_pow2_monotone(log_size as nat, 30);
    vstd::arithmetic::power2::lemma_pow2_pos(log_size as nat);
    crate::fields::fermat::lemma_small_classes(size, size);
    lemma_inverse(n);
    M31::lemma_from_int_range(claimed_sum.0.0@ * w@);
    M31::lemma_from_int_range(claimed_sum.0.1@ * w@);
    M31::lemma_from_int_range(claimed_sum.1.0@ * w@);
    M31::lemma_from_int_range(claimed_sum.1.1@ * w@);
    lemma_prefix_sum_of_shifted(values, shift, log_size, size);
    lemma_share_step(claimed_sum.0.0, w, n);
    lemma_share_step(claimed_sum.0.1, w, n);
    lemma_share_step(claimed_sum.1.0, w, n);
    lemma_share_step(claimed_sum.1.1, w, n);
}

} // verus!
