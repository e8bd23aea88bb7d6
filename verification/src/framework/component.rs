//! A component that is given by its constraints alone: what it reads, how
//! many constraints it has and where its columns lie follow from one run of
//! its declaration.

use vstd::prelude::*;
use crate::air::accumulation::PointEvaluationAccumulator;
use crate::air::component::{spec_bounds_view, spec_mask_view, spec_points_view, Component};
use vstd::arithmetic::power2::{lemma2_to64, lemma_pow2_adds, lemma_pow2_pos, pow2};
use crate::circle::coset::Coset;
use crate::circle::secure_point::SecureCirclePoint;
use crate::constraints::{
    coset_vanishing, secure_coset_vanishing, spec_coset_vanishing, spec_secure_coset_vanishing,
};
use crate::fields::m31::M31;
use crate::fields::qm31::QM31;
use crate::framework::cpu_domain::{spec_trace_view, CpuDomainEvaluator};
use crate::poly::domain::CircleDomain;
use crate::prover::air::{
    spec_polys_model, AccumulatorModel, ComponentProver, DomainEvaluationAccumulator, Trace,
    TraceModel,
};
use crate::prover::poly::circle::{spec_extend, CirclePoly};
use crate::prover::poly::fft::spec_fft;
use crate::utils::{bit_reverse, lemma_pow2_monotone, pow2_usize, spec_bit_reversed};
use crate::framework::columns::{
    spec_assign, spec_column_counts, spec_ids, TraceLocationAllocator, TreeSubspan,
};
use crate::framework::eval::EvalAtRow;
use crate::framework::counts::{scaled, spec_scaled, spec_scales, RelationCounts};
use crate::framework::info::{spec_offsets_view, InfoEvaluator, InfoModel};
use crate::framework::point::{PointEvaluator, PointModel};
use crate::poly::domain::CanonicCoset;
use crate::utils::copy_vec;

verus! {

/// The constraints of a component over columns of one size. What the
/// declaration does to an evaluator depends on the component and on the
/// state of the evaluator alone.
pub trait FrameworkEval {
    spec fn spec_log_size(&self) -> u32;

    spec fn spec_max_constraint_log_degree_bound(&self) -> u32;

    /// The state of the evaluator after the component declared its
    /// constraints to it.
    spec fn spec_evaluate<E: EvalAtRow>(&self, eval: E::Model) -> E::Model;

    fn log_size(&self) -> (r: u32)
        ensures
            r == self.spec_log_size(),
    ;

    fn max_constraint_log_degree_bound(&self) -> (r: u32)
        ensures
            r == self.spec_max_constraint_log_degree_bound(),
    ;

    fn evaluate<E: EvalAtRow>(&self, eval: E) -> (r: E)
        ensures
            r.model() == self.spec_evaluate::<E>(eval.model()),
    ;
}

/// Why a component found no place.
#[derive(Debug, Clone, Copy, PartialEq, Eq, Structural)]
pub enum AllocationError {
    /// The preprocessed columns are fixed and lack one that the component
    /// names.
    MissingPreprocessedColumn,
    /// A tree cannot hold as many columns.
    TooManyColumns,
}

/// The part of the mask that belongs to the component: of tree zero the
/// preprocessed columns that it names, in the order in which it names them,
/// and of every other tree the columns of its span.
pub open spec fn spec_sub_mask(
    mask: Seq<Seq<Seq<QM31>>>,
    locations: Seq<TreeSubspan>,
    preprocessed: Seq<usize>,
) -> Seq<Seq<Seq<QM31>>> {
    Seq::new(
        if locations.len() == 0 {
            1
        } else {
            locations.len()
        },
        |t: int|
            if t == 0 {
                Seq::new(preprocessed.len(), |i: int| mask[0][preprocessed[i] as int])
            } else {
                mask[t].subrange(locations[t].col_start as int, locations[t].col_end as int)
            },
    )
}

/// A component with its place among the columns.
pub struct FrameworkComponent<C: FrameworkEval> {
    eval: C,
    trace_locations: Vec<TreeSubspan>,
    preprocessed_column_indices: Vec<usize>,
    claimed_sum: QM31,
    info: InfoEvaluator,
}

impl<C: FrameworkEval> FrameworkComponent<C> {
    /// What one run of the declaration finds.
    pub open spec fn spec_info(eval: C, claimed_sum: QM31) -> InfoModel {
        eval.spec_evaluate::<InfoEvaluator>(
            InfoEvaluator::spec_new(eval.spec_log_size(), Seq::empty(), claimed_sum),
        )
    }

    /// The declaration.
    pub closed spec fn spec_eval(self) -> C {
        self.eval
    }

    /// The span of the component in each tree.
    pub closed spec fn spec_locations(self) -> Seq<TreeSubspan> {
        self.trace_locations@
    }

    /// The indices of the preprocessed columns that the component names,
    /// in the order in which it names them.
    pub closed spec fn spec_preprocessed(self) -> Seq<usize> {
        self.preprocessed_column_indices@
    }

    pub closed spec fn spec_claimed_sum(self) -> QM31 {
        self.claimed_sum
    }

    /// What the run of the declaration found.
    pub closed spec fn spec_found(self) -> InfoModel {
        self.info.model()
    }

    /// The component holds what one run of its declaration found, and its
    /// span in each tree has as many columns as the declaration reads
    /// there.
    #[verifier::type_invariant]
    pub open spec fn wf(self) -> bool {
        &&& 1 <= self.spec_eval().spec_log_size() <= 30
        &&& self.spec_found() == Self::spec_info(self.spec_eval(), self.spec_claimed_sum())
        &&& self.spec_locations().len() == self.spec_found().mask_offsets.len()
        &&& forall|t: int|
            0 <= t < self.spec_locations().len() ==> {
                &&& (#[trigger] self.spec_locations()[t]).tree_index == t
                &&& self.spec_locations()[t].col_start + self.spec_found().mask_offsets[t].len()
                    == self.spec_locations()[t].col_end
            }
        &&& self.spec_preprocessed().len() == self.spec_found().preprocessed_columns.len()
    }

    /// Runs the declaration once to learn what the component reads, and
    /// gives it the next free columns of each tree and the indices of its
    /// preprocessed columns. Where the component finds no place the
    /// allocator stays as it was.
    pub fn new(allocator: &mut TraceLocationAllocator, eval: C, claimed_sum: QM31) -> (r: Result<
        FrameworkComponent<C>,
        AllocationError,
    >)
        requires
            1 <= eval.spec_log_size() <= 30,
        ensures
            ({
                let info = Self::spec_info(eval, claimed_sum);
                let room = old(allocator).spec_has_room(
                    Seq::new(info.mask_offsets.len(), |t: int| info.mask_offsets[t].len()),
                );
                let assigned = spec_assign(
                    old(allocator).spec_columns(),
                    old(allocator).spec_is_static(),
                    info.preprocessed_columns,
                    info.preprocessed_columns.len(),
                );
                match r {
                    Ok(c) => {
                        &&& room
                        &&& c.wf()
                        &&& c.spec_eval() == eval
                        &&& c.spec_claimed_sum() == claimed_sum
                        &&& assigned == Some(
                            (final(allocator).spec_columns(), c.spec_preprocessed()),
                        )
                        &&& forall|t: int|
                            0 <= t < info.mask_offsets.len() ==> {
                                &&& (#[trigger] c.spec_locations()[t]).col_start == old(allocator).spec_offset(t)
                                &&& final(allocator).spec_offset(t)
                                    == c.spec_locations()[t].col_end
                            }
                        &&& forall|t: int|
                            info.mask_offsets.len() <= t ==> #[trigger] final(allocator).spec_offset(t) == old(allocator).spec_offset(t)
                    },
                    Err(e) => {
                        &&& final(allocator).spec_offsets() == old(allocator).spec_offsets()
                        &&& final(allocator).spec_columns() == old(allocator).spec_columns()
                        &&& match e {
                            AllocationError::TooManyColumns => !room,
                            AllocationError::MissingPreprocessedColumn => room && assigned.is_none(),
                        }
                    },
                }
            }),
    {
        let log_size = eval.log_size();
        let info = eval.evaluate(InfoEvaluator::new(log_size, Vec::new(), claimed_sum));
        proof {
            assert(spec_ids(Seq::<crate::framework::columns::PreProcessedColumnId>::empty())
                =~= Seq::<Seq<char>>::empty());
            assert(spec_column_counts(info.mask_offsets@) =~= Seq::new(
                info.model().mask_offsets.len(),
                |t: int| info.model().mask_offsets[t].len(),
            ));
        }
        if !allocator.has_room(&info.mask_offsets) {
            return Err(AllocationError::TooManyColumns);
        }
        let ghost ids = spec_ids(info.preprocessed_columns@);
        let ghost is_static = allocator.spec_is_static();
        let mut indices: Vec<usize> = Vec::with_capacity(info.preprocessed_columns.len());
        let mut i: usize = 0;
        while i < info.preprocessed_columns.len()
            invariant
                i <= info.preprocessed_columns.len(),
                indices.len() == i,
                ids == spec_ids(info.preprocessed_columns@),
                info.model() == Self::spec_info(eval, claimed_sum),
                old(allocator).spec_has_room(
                    Seq::new(
                        info.model().mask_offsets.len(),
                        |t: int| info.model().mask_offsets[t].len(),
                    ),
                ),
                is_static == old(allocator).spec_is_static(),
                allocator.spec_is_static() == is_static,
                allocator.spec_offsets() == old(allocator).spec_offsets(),
                is_static ==> allocator.spec_columns() == old(allocator).spec_columns(),
                spec_assign(old(allocator).spec_columns(), is_static, ids, i as nat) == Some(
                    (allocator.spec_columns(), indices@),
                ),
            decreases info.preprocessed_columns.len() - i,
        {
            proof {
                assert(ids[i as int] == info.preprocessed_columns[i as int].id@);
            }
            match allocator.index_of(&info.preprocessed_columns[i]) {
                Some(index) => {
                    indices.push(index);
                },
                None => {
                    proof {
                        assert(is_static);
                        assert(spec_assign(
                            old(allocator).spec_columns(),
                            is_static,
                            ids,
                            (i + 1) as nat,
                        ).is_none());
                        lemma_assign_fails(
                            old(allocator).spec_columns(),
                            is_static,
                            ids,
                            (i + 1) as nat,
                            ids.len(),
                        );
                    }
                    return Err(AllocationError::MissingPreprocessedColumn);
                },
            }
            i = i + 1;
        }
        let ghost before = *allocator;
        proof {
            assert forall|t: int| #[trigger] before.spec_offset(t) == old(allocator).spec_offset(t) by {}
        }
        let trace_locations = allocator.next_for_structure(&info.mask_offsets);
        let c = FrameworkComponent {
            eval,
            trace_locations,
            preprocessed_column_indices: indices,
            claimed_sum,
            info,
        };
        proof {
            assert forall|t: int| 0 <= t < c.trace_locations.len() implies {
                &&& (#[trigger] c.trace_locations[t]).tree_index == t
                &&& c.trace_locations[t].col_start + c.info.mask_offsets[t].len()
                    == c.trace_locations[t].col_end
            } by {
                assert(before.spec_offset(t) + spec_column_counts(c.info.mask_offsets@)[t]
                    <= usize::MAX);
            }
            assert forall|t: int| 0 <= t < c.info.model().mask_offsets.len() implies {
                &&& (#[trigger] c.trace_locations[t]).col_start == old(allocator).spec_offset(t)
                &&& allocator.spec_offset(t) == c.trace_locations[t].col_end
            } by {
                assert(before.spec_offset(t) + spec_column_counts(c.info.mask_offsets@)[t]
                    <= usize::MAX);
            }
        }
        Ok(c)
    }

    /// The declaration of the component.
    pub fn eval(&self) -> (r: &C)
        ensures
            *r == self.spec_eval(),
    {
        &self.eval
    }

    /// The indices of the preprocessed columns that the component names.
    pub fn preprocessed_indices(&self) -> (r: &Vec<usize>)
        ensures
            r@ == self.spec_preprocessed(),
    {
        &self.preprocessed_column_indices
    }

    pub fn trace_locations(&self) -> (r: &Vec<TreeSubspan>)
        ensures
            r@ == self.spec_locations(),
    {
        &self.trace_locations
    }

    /// The number of uses of each relation over all the rows: what one
    /// run of the declaration counted, multiplied by the number of rows.
    pub fn logup_counts(&self) -> (r: RelationCounts)
        requires
            spec_scales(
                self.spec_found().logup_counts,
                pow2(self.spec_eval().spec_log_size() as nat),
            ),
        ensures
            r.spec_counts() == spec_scaled(
                self.spec_found().logup_counts,
                pow2(self.spec_eval().spec_log_size() as nat),
            ),
    {
        proof {
            use_type_invariant(self);
        }
        let size = pow2_usize(self.eval.log_size());
        match scaled(&self.info.logup_counts, size) {
            Some(counts) => counts,
            None => {
                assert(false);
                RelationCounts::new()
            },
        }
    }

    pub fn claimed_sum(&self) -> (r: QM31)
        ensures
            r == self.spec_claimed_sum(),
    {
        self.claimed_sum
    }

    /// The number of rows of the columns, as a power of two.
    pub fn log_size(&self) -> (r: u32)
        ensures
            r == self.spec_eval().spec_log_size(),
            1 <= r <= 30,
    {
        proof {
            use_type_invariant(self);
        }
        self.eval.log_size()
    }
}

/// Once an identifier has no index, the assignment has no result.
pub proof fn lemma_assign_fails(
    columns: Seq<Seq<char>>,
    is_static: bool,
    ids: Seq<Seq<char>>,
    k: nat,
    n: nat,
)
    requires
        k <= n,
        spec_assign(columns, is_static, ids, k).is_none(),
    ensures
        spec_assign(columns, is_static, ids, n).is_none(),
    decreases n - k,
{
    if k < n {
        lemma_assign_fails(columns, is_static, ids, k, (n - 1) as nat);
    }
}

/// The point of the mask at an offset from `point`: as many steps of the
/// trace domain further.
pub open spec fn spec_mask_point(point: SecureCirclePoint, log_size: u32, offset: isize) -> SecureCirclePoint {
    point.spec_add(
        SecureCirclePoint::spec_from_base(
            Coset::spec_odds(log_size as nat).spec_step_size().spec_mul_signed(
                offset as int,
            ).spec_to_point(),
        ),
    )
}

/// The points of one column.
pub open spec fn spec_column_points(point: SecureCirclePoint, log_size: u32, offsets: Seq<isize>) -> Seq<
    SecureCirclePoint,
> {
    Seq::new(offsets.len(), |k: int| spec_mask_point(point, log_size, offsets[k]))
}

/// Whether the columns of the span are there, each with one value for each
/// offset at which the component reads it.
pub open spec fn spec_tree_accepts(tree: Seq<Seq<QM31>>, span: TreeSubspan, offsets: Seq<Seq<isize>>) -> bool {
    &&& span.col_start + offsets.len() <= tree.len()
    &&& forall|c: int|
        0 <= c < offsets.len() ==> (#[trigger] tree[span.col_start + c]).len() == offsets[c].len()
}

/// Whether the preprocessed columns that the component names are there,
/// each with one value.
pub open spec fn spec_preprocessed_accepts(mask: Seq<Seq<Seq<QM31>>>, preprocessed: Seq<usize>) -> bool {
    forall|i: int|
        0 <= i < preprocessed.len() ==> {
            &&& mask.len() >= 1
            &&& (#[trigger] preprocessed[i]) < mask[0].len()
            &&& mask[0][preprocessed[i] as int].len() == 1
        }
}

/// The points of one column: the point moved by each offset.
fn column_points(point: SecureCirclePoint, log_size: u32, offsets: &Vec<isize>) -> (r: Vec<
    SecureCirclePoint,
>)
    requires
        1 <= log_size <= 30,
    ensures
        r@ == spec_column_points(point, log_size, offsets@),
{
    let step = CanonicCoset::new(log_size).step_size();
    let mut out: Vec<SecureCirclePoint> = Vec::with_capacity(offsets.len());
    let mut k: usize = 0;
    while k < offsets.len()
        invariant
            k <= offsets.len(),
            step == Coset::spec_odds(log_size as nat).spec_step_size(),
            out.len() == k,
            forall|j: int| 0 <= j < k ==> out[j] == spec_mask_point(point, log_size, offsets[j]),
        decreases offsets.len() - k,
    {
        out.push(point.add(SecureCirclePoint::from_base(step.mul_signed(offsets[k]).to_point())));
        k = k + 1;
    }
    proof {
        assert(out@ =~= spec_column_points(point, log_size, offsets@));
    }
    out
}

impl<C: FrameworkEval> FrameworkComponent<C> {
    /// Whether the columns of the span of tree `t` are there as the
    /// component reads them.
    fn tree_accepts(&self, mask: &Vec<Vec<Vec<QM31>>>, t: usize) -> (r: bool)
        requires
            1 <= t < self.spec_locations().len(),
            t < mask.len(),
        ensures
            r == spec_tree_accepts(
                spec_mask_view(mask@)[t as int],
                self.spec_locations()[t as int],
                self.spec_found().mask_offsets[t as int],
            ),
    {
        proof {
            use_type_invariant(self);
        }
        let span = self.trace_locations[t];
        let n = self.info.mask_offsets[t].len();
        let ghost tree = spec_mask_view(mask@)[t as int];
        let ghost offsets = self.spec_found().mask_offsets[t as int];
        if span.col_end > mask[t].len() {
            return false;
        }
        let mut c: usize = 0;
        while c < n
            invariant
                c <= n,
                n == offsets.len(),
                t < mask.len(),
                1 <= t < self.spec_locations().len(),
                span == self.spec_locations()[t as int],
                t < self.info.mask_offsets.len(),
                n == self.info.mask_offsets[t as int].len(),
                span.col_start + n == span.col_end,
                span.col_end <= mask[t as int].len(),
                tree == spec_mask_view(mask@)[t as int],
                offsets == self.spec_found().mask_offsets[t as int],
                forall|k: int| 0 <= k < c ==> (#[trigger] tree[span.col_start + k]).len() == offsets[k].len(),
            decreases n - c,
        {
            if mask[t][span.col_start + c].len() != self.info.mask_offsets[t][c].len() {
                proof {
                    assert(tree[span.col_start + c].len() != offsets[c as int].len());
                }
                return false;
            }
            c = c + 1;
        }
        true
    }

    /// The part of the mask that belongs to the component.
    fn sub_mask(&self, mask: &Vec<Vec<Vec<QM31>>>) -> (r: Vec<Vec<Vec<QM31>>>)
        requires
            self.spec_accepts_mask(spec_mask_view(mask@)),
        ensures
            spec_mask_view(r@) == spec_sub_mask(
                spec_mask_view(mask@),
                self.spec_locations(),
                self.spec_preprocessed(),
            ),
    {
        proof {
            use_type_invariant(self);
        }
        let ghost view = spec_mask_view(mask@);
        let ghost want = spec_sub_mask(view, self.spec_locations(), self.spec_preprocessed());
        let mut out: Vec<Vec<Vec<QM31>>> = Vec::new();
        let mut first: Vec<Vec<QM31>> = Vec::with_capacity(self.preprocessed_column_indices.len());
        let mut i: usize = 0;
        while i < self.preprocessed_column_indices.len()
            invariant
                i <= self.preprocessed_column_indices.len(),
                view == spec_mask_view(mask@),
                spec_preprocessed_accepts(view, self.spec_preprocessed()),
                first.len() == i,
                forall|k: int|
                    0 <= k < i ==> (#[trigger] first[k])@ == view[0][self.spec_preprocessed()[k] as int],
            decreases self.preprocessed_column_indices.len() - i,
        {
            let index = self.preprocessed_column_indices[i];
            proof {
                assert(self.spec_preprocessed()[i as int] == index);
            }
            first.push(copy_vec(&mask[0][index]));
            i = i + 1;
        }
        out.push(first);
        proof {
            assert(spec_mask_view(out@)[0] =~= want[0]);
        }
        let mut t: usize = 1;
        while t < self.trace_locations.len()
            invariant
                1 <= t,
                out.len() == t,
                t <= self.trace_locations.len() || self.trace_locations.len() == 0,
                self.trace_locations.len() == 0 ==> t == 1,
                view == spec_mask_view(mask@),
                want == spec_sub_mask(view, self.spec_locations(), self.spec_preprocessed()),
                self.spec_accepts_mask(view),
                self.wf(),
                forall|k: int|
                    0 <= k < t ==> (#[trigger] spec_mask_view(out@)[k]) == want[k],
            decreases self.trace_locations.len() - t,
        {
            let span = self.trace_locations[t];
            let ghost offsets = self.spec_found().mask_offsets[t as int];
            proof {
                assert(spec_tree_accepts(view[t as int], self.spec_locations()[t as int], offsets));
            }
            let mut tree: Vec<Vec<QM31>> = Vec::with_capacity(span.col_end - span.col_start);
            let mut c: usize = span.col_start;
            while c < span.col_end
                invariant
                    span.col_start <= c <= span.col_end,
                    t < mask.len(),
                    span.col_end <= mask[t as int].len(),
                    tree.len() == c - span.col_start,
                    forall|k: int|
                        0 <= k < tree.len() ==> (#[trigger] tree[k])@ == mask[t as int][span.col_start + k]@,
                decreases span.col_end - c,
            {
                tree.push(copy_vec(&mask[t][c]));
                c = c + 1;
            }
            let ghost prior = spec_mask_view(out@);
            out.push(tree);
            proof {
                let now = spec_mask_view(out@);
                assert forall|k: int| 0 <= k < t + 1 implies (#[trigger] now[k]) == want[k] by {
                    if k < t {
                        assert(now[k] =~= prior[k]);
                    } else {
                        assert(now[k] =~= view[t as int].subrange(
                            span.col_start as int,
                            span.col_end as int,
                        ));
                    }
                }
            }
            t = t + 1;
        }
        proof {
            assert(spec_mask_view(out@) =~= want);
        }
        out
    }
}

impl<C: FrameworkEval> Component for FrameworkComponent<C> {
    open spec fn spec_n_constraints(&self) -> usize {
        self.spec_found().n_constraints
    }

    open spec fn spec_max_constraint_log_degree_bound(&self) -> u32 {
        self.spec_eval().spec_max_constraint_log_degree_bound()
    }

    /// Every column has the size of the component: in tree zero the
    /// preprocessed columns that it names, in every other tree the columns
    /// that it reads.
    open spec fn spec_trace_log_degree_bounds(&self) -> Seq<Seq<u32>> {
        Seq::new(
            if self.spec_found().mask_offsets.len() == 0 {
                1
            } else {
                self.spec_found().mask_offsets.len()
            },
            |t: int|
                Seq::new(
                    if t == 0 {
                        self.spec_preprocessed().len()
                    } else {
                        self.spec_found().mask_offsets[t].len()
                    },
                    |c: int| self.spec_eval().spec_log_size(),
                ),
        )
    }

    /// For each column that the component reads, the point moved by each
    /// of the offsets at which it reads the column.
    open spec fn spec_mask_points(&self, point: SecureCirclePoint) -> Seq<Seq<Seq<SecureCirclePoint>>> {
        Seq::new(
            self.spec_found().mask_offsets.len(),
            |t: int|
                Seq::new(
                    self.spec_found().mask_offsets[t].len(),
                    |c: int|
                        spec_column_points(
                            point,
                            self.spec_eval().spec_log_size(),
                            self.spec_found().mask_offsets[t][c],
                        ),
                ),
        )
    }

    open spec fn spec_preprocessed_column_indices(&self) -> Seq<usize> {
        self.spec_preprocessed()
    }

    open spec fn spec_accepts_mask(&self, mask: Seq<Seq<Seq<QM31>>>) -> bool {
        &&& mask.len() >= 1
        &&& mask.len() >= self.spec_locations().len()
        &&& spec_preprocessed_accepts(mask, self.spec_preprocessed())
        &&& forall|t: int|
            1 <= t < self.spec_locations().len() ==> spec_tree_accepts(
                #[trigger] mask[t],
                self.spec_locations()[t],
                self.spec_found().mask_offsets[t],
            )
    }

    /// The declaration is run on the part of the mask that belongs to the
    /// component: each constraint is divided by the vanishing polynomial
    /// of the trace domain at the point and accumulated.
    open spec fn spec_evaluate_constraint_quotients_at_point(
        &self,
        point: SecureCirclePoint,
        mask: Seq<Seq<Seq<QM31>>>,
        accumulator: PointEvaluationAccumulator,
    ) -> PointEvaluationAccumulator {
        self.spec_eval().spec_evaluate::<PointEvaluator>(
            PointEvaluator::spec_new(
                spec_sub_mask(mask, self.spec_locations(), self.spec_preprocessed()),
                accumulator,
                spec_secure_coset_vanishing(
                    Coset::spec_odds(self.spec_eval().spec_log_size() as nat),
                    point,
                ).spec_inverse(),
                self.spec_eval().spec_log_size(),
                self.spec_claimed_sum(),
            ),
        ).accumulator
    }

    fn n_constraints(&self) -> (r: usize) {
        self.info.n_constraints
    }

    fn max_constraint_log_degree_bound(&self) -> (r: u32) {
        self.eval.max_constraint_log_degree_bound()
    }

    fn trace_log_degree_bounds(&self) -> (r: Vec<Vec<u32>>) {
        let log_size = self.eval.log_size();
        let ghost want = self.spec_trace_log_degree_bounds();
        let mut out: Vec<Vec<u32>> = Vec::new();
        let mut t: usize = 0;
        while t == 0 || t < self.info.mask_offsets.len()
            invariant
                out.len() == t,
                t <= want.len(),
                want == self.spec_trace_log_degree_bounds(),
                log_size == self.spec_eval().spec_log_size(),
                forall|k: int| 0 <= k < t ==> (#[trigger] out[k])@ == want[k],
            decreases want.len() - t,
        {
            let n = if t == 0 {
                self.preprocessed_column_indices.len()
            } else {
                self.info.mask_offsets[t].len()
            };
            let mut tree: Vec<u32> = Vec::with_capacity(n);
            let mut c: usize = 0;
            while c < n
                invariant
                    c <= n,
                    tree.len() == c,
                    forall|k: int| 0 <= k < c ==> tree[k] == log_size,
                decreases n - c,
            {
                tree.push(log_size);
                c = c + 1;
            }
            proof {
                assert(tree@ =~= want[t as int]);
            }
            out.push(tree);
            t = t + 1;
        }
        proof {
            assert(spec_bounds_view(out@) =~= want);
        }
        out
    }

    fn mask_points(&self, point: SecureCirclePoint) -> (r: Vec<Vec<Vec<SecureCirclePoint>>>) {
        proof {
            use_type_invariant(self);
        }
        let log_size = self.eval.log_size();
        let ghost want = self.spec_mask_points(point);
        let mut out: Vec<Vec<Vec<SecureCirclePoint>>> = Vec::with_capacity(self.info.mask_offsets.len());
        let mut t: usize = 0;
        while t < self.info.mask_offsets.len()
            invariant
                t <= self.info.mask_offsets.len(),
                out.len() == t,
                1 <= log_size <= 30,
                log_size == self.spec_eval().spec_log_size(),
                want == self.spec_mask_points(point),
                forall|k: int| 0 <= k < t ==> (#[trigger] spec_points_view(out@)[k]) == want[k],
            decreases self.info.mask_offsets.len() - t,
        {
            let n = self.info.mask_offsets[t].len();
            let mut tree: Vec<Vec<SecureCirclePoint>> = Vec::with_capacity(n);
            let mut c: usize = 0;
            while c < n
                invariant
                    c <= n,
                    t < self.info.mask_offsets.len(),
                    n == self.info.mask_offsets[t as int].len(),
                    tree.len() == c,
                    1 <= log_size <= 30,
                    forall|k: int|
                        0 <= k < c ==> (#[trigger] tree[k])@ == spec_column_points(
                            point,
                            log_size,
                            self.info.mask_offsets[t as int][k]@,
                        ),
                decreases n - c,
            {
                tree.push(column_points(point, log_size, &self.info.mask_offsets[t][c]));
                c = c + 1;
            }
            let ghost prior = spec_points_view(out@);
            out.push(tree);
            proof {
                let now = spec_points_view(out@);
                assert forall|k: int| 0 <= k < t + 1 implies (#[trigger] now[k]) == want[k] by {
                    if k < t {
                        assert(now[k] =~= prior[k]);
                    } else {
                        assert(now[k] =~= want[k]);
                    }
                }
            }
            t = t + 1;
        }
        proof {
            assert(spec_points_view(out@) =~= want);
        }
        out
    }

    fn preproccessed_column_indices(&self) -> (r: Vec<usize>) {
        copy_vec(&self.preprocessed_column_indices)
    }

    fn accepts_mask(&self, mask: &Vec<Vec<Vec<QM31>>>) -> (r: bool) {
        proof {
            use_type_invariant(self);
        }
        let ghost view = spec_mask_view(mask@);
        if mask.len() == 0 || mask.len() < self.trace_locations.len() {
            return false;
        }
        let mut i: usize = 0;
        while i < self.preprocessed_column_indices.len()
            invariant
                i <= self.preprocessed_column_indices.len(),
                mask.len() >= 1,
                view == spec_mask_view(mask@),
                forall|k: int|
                    0 <= k < i ==> {
                        &&& (#[trigger] self.spec_preprocessed()[k]) < view[0].len()
                        &&& view[0][self.spec_preprocessed()[k] as int].len() == 1
                    },
            decreases self.preprocessed_column_indices.len() - i,
        {
            let index = self.preprocessed_column_indices[i];
            if index >= mask[0].len() || mask[0][index].len() != 1 {
                proof {
                    assert(self.spec_preprocessed()[i as int] == index);
                }
                return false;
            }
            i = i + 1;
        }
        let mut t: usize = 1;
        while t < self.trace_locations.len()
            invariant
                1 <= t,
                t <= self.trace_locations.len() || self.trace_locations.len() == 0,
                mask.len() >= self.trace_locations.len(),
                view == spec_mask_view(mask@),
                forall|k: int|
                    1 <= k < t ==> spec_tree_accepts(
                        #[trigger] view[k],
                        self.spec_locations()[k],
                        self.spec_found().mask_offsets[k],
                    ),
            decreases self.trace_locations.len() - t,
        {
            if !self.tree_accepts(mask, t) {
                return false;
            }
            t = t + 1;
        }
        true
    }

    fn evaluate_constraint_quotients_at_point(
        &self,
        point: SecureCirclePoint,
        mask: &Vec<Vec<Vec<QM31>>>,
        evaluation_accumulator: &mut PointEvaluationAccumulator,
    ) {
        proof {
            use_type_invariant(self);
        }
        let sub = self.sub_mask(mask);
        let log_size = self.eval.log_size();
        let denom_inverse = secure_coset_vanishing(
            CanonicCoset::new(log_size).coset(),
            point,
        ).inverse_or_zero();
        let evaluator = PointEvaluator::new(
            sub,
            *evaluation_accumulator,
            denom_inverse,
            log_size,
            self.claimed_sum,
        );
        let done = self.eval.evaluate(evaluator);
        *evaluation_accumulator = done.evaluation_accumulator;
    }
}

/// The inverse of the vanishing polynomial of the trace domain at each of
/// the first `2^(eval_log_size - log_size)` points of the evaluation
/// domain, in bit-reversed order. The polynomial takes the same value on
/// all rows that agree beyond their last `log_size` bits.
pub open spec fn spec_denominator_inverses(log_size: u32, eval_log_size: u32) -> Seq<M31> {
    spec_bit_reversed(
        Seq::new(
            pow2((eval_log_size - log_size) as nat),
            |i: int|
                spec_coset_vanishing(
                    Coset::spec_odds(log_size as nat),
                    CanonicCoset::spec_circle_domain_at(eval_log_size as nat, i as nat),
                ).spec_inverse(),
        ),
        (eval_log_size - log_size) as nat,
    )
}

/// The inverses of the vanishing polynomial of the trace domain on the
/// evaluation domain.
pub fn denominator_inverses(log_size: u32, eval_log_size: u32) -> (r: Vec<M31>)
    requires
        1 <= log_size < eval_log_size <= 30,
    ensures
        r@ == spec_denominator_inverses(log_size, eval_log_size),
        r.len() == pow2((eval_log_size - log_size) as nat),
{
    let eval_domain = CanonicCoset::new(eval_log_size).circle_domain();
    let trace_coset = CanonicCoset::new(log_size).coset();
    let log_expand = eval_log_size - log_size;
    let n = pow2_usize(log_expand);
    let mut out: Vec<M31> = Vec::with_capacity(n);
    let mut i: usize = 0;
    while i < n
        invariant
            i <= n,
            out.len() == i,
            trace_coset == Coset::spec_odds(log_size as nat),
            1 <= trace_coset.spec_log_size() <= 30,
            eval_domain == CanonicCoset::spec_circle_domain_of(eval_log_size as nat),
            forall|k: int|
                0 <= k < i ==> out[k] == spec_coset_vanishing(
                    Coset::spec_odds(log_size as nat),
                    CanonicCoset::spec_circle_domain_at(eval_log_size as nat, k as nat),
                ).spec_inverse(),
        decreases n - i,
    {
        out.push(coset_vanishing(trace_coset, eval_domain.at(i)).inverse_or_zero());
        i = i + 1;
    }
    proof {
        assert(out@ =~= Seq::new(
            pow2((eval_log_size - log_size) as nat),
            |i: int|
                spec_coset_vanishing(
                    Coset::spec_odds(log_size as nat),
                    CanonicCoset::spec_circle_domain_at(eval_log_size as nat, i as nat),
                ).spec_inverse(),
        ));
    }
    bit_reverse(&mut out, log_expand);
    out
}

impl<C: FrameworkEval> FrameworkComponent<C> {
    /// The sum of the constraints at a row of the evaluation domain, each
    /// times its power of the random coefficient, over the vanishing
    /// polynomial of the trace domain.
    pub open spec fn spec_row_quotient(
        self,
        trace: Seq<Seq<Seq<M31>>>,
        row: usize,
        coeffs: Seq<QM31>,
        eval_log_size: u32,
        denominator_inverse: M31,
    ) -> QM31 {
        self.spec_eval().spec_evaluate::<CpuDomainEvaluator<'_>>(
            CpuDomainEvaluator::spec_new(
                trace,
                row,
                coeffs,
                self.spec_eval().spec_log_size(),
                eval_log_size,
                self.spec_eval().spec_log_size(),
                self.spec_claimed_sum(),
            ),
        ).row_res.spec_mul_m31(denominator_inverse)
    }

    /// Runs the declaration at one row of the evaluation domain.
    pub fn row_quotient(
        &self,
        trace: &Vec<Vec<Vec<M31>>>,
        row: usize,
        coeffs: &Vec<QM31>,
        eval_log_size: u32,
        denominator_inverse: M31,
    ) -> (r: QM31)
        ensures
            r == self.spec_row_quotient(
                spec_trace_view(trace@),
                row,
                coeffs@,
                eval_log_size,
                denominator_inverse,
            ),
    {
        let log_size = self.log_size();
        let evaluator = CpuDomainEvaluator::new(
            trace,
            row,
            coeffs,
            log_size,
            eval_log_size,
            log_size,
            self.claimed_sum,
        );
        let done = self.eval.evaluate(evaluator);
        done.row_res.mul_m31(denominator_inverse)
    }

    /// Whether the trace holds the columns that belong to the component,
    /// none of them larger than the evaluation domain.
    pub open spec fn spec_polys_fit(self, polys: Seq<Seq<CirclePoly>>, eval_log_size: u32) -> bool {
        &&& polys.len() >= 1
        &&& polys.len() >= self.spec_locations().len()
        &&& forall|i: int|
            0 <= i < self.spec_preprocessed().len() ==> {
                &&& (#[trigger] self.spec_preprocessed()[i]) < polys[0].len()
                &&& spec_poly_fits(polys[0][self.spec_preprocessed()[i] as int], eval_log_size)
            }
        &&& forall|t: int|
            1 <= t < self.spec_locations().len() ==> spec_span_fits(
                #[trigger] polys[t],
                self.spec_locations()[t],
                eval_log_size,
            )
    }

    /// The values on the evaluation domain of the columns that belong to
    /// the component: of tree zero the preprocessed columns that it names,
    /// of every other tree the columns of its span.
    pub open spec fn spec_columns_on(self, polys: Seq<Seq<CirclePoly>>, eval_domain: CircleDomain) -> Seq<
        Seq<Seq<M31>>,
    > {
        Seq::new(
            if self.spec_locations().len() == 0 {
                1
            } else {
                self.spec_locations().len()
            },
            |t: int|
                if t == 0 {
                    Seq::new(
                        self.spec_preprocessed().len(),
                        |i: int|
                            spec_poly_values(polys[0][self.spec_preprocessed()[i] as int], eval_domain),
                    )
                } else {
                    Seq::new(
                        (self.spec_locations()[t].col_end - self.spec_locations()[t].col_start) as nat,
                        |c: int|
                            spec_poly_values(
                                polys[t][self.spec_locations()[t].col_start + c],
                                eval_domain,
                            ),
                    )
                },
        )
    }

    /// The values on the evaluation domain of the columns that belong to
    /// the component, if the trace holds them and none exceeds the domain.
    fn columns_on(&self, trace: &Trace<'_>, eval_domain: CircleDomain) -> (r: Option<Vec<Vec<Vec<M31>>>>)
        requires
            eval_domain.wf(),
            eval_domain.spec_log_size() <= 30,
        ensures
            match r {
                Some(columns) => {
                    &&& self.spec_polys_fit(spec_polys_model(trace.polys@), eval_domain.spec_log_size() as u32)
                    &&& spec_trace_view(columns@) == self.spec_columns_on(spec_polys_model(trace.polys@), eval_domain)
                },
                None => !self.spec_polys_fit(spec_polys_model(trace.polys@), eval_domain.spec_log_size() as u32),
            },
    {
        proof {
            use_type_invariant(self);
        }
        let eval_log_size = eval_domain.log_size();
        let ghost want = self.spec_columns_on(spec_polys_model(trace.polys@), eval_domain);
        if trace.polys.len() == 0 || trace.polys.len() < self.trace_locations.len() {
            return None;
        }
        let mut out: Vec<Vec<Vec<M31>>> = Vec::new();
        let mut first: Vec<Vec<M31>> = Vec::new();
        let mut i: usize = 0;
        while i < self.preprocessed_column_indices.len()
            invariant
                i <= self.preprocessed_column_indices.len(),
                trace.polys.len() >= 1,
                eval_domain.wf(),
                eval_log_size == eval_domain.spec_log_size(),
                eval_log_size <= 30,
                first.len() == i,
                forall|k: int|
                    0 <= k < i ==> {
                        &&& (#[trigger] self.spec_preprocessed()[k]) < trace.polys[0].len()
                        &&& spec_poly_fits(
                            *trace.polys[0][self.spec_preprocessed()[k] as int],
                            eval_log_size,
                        )
                    },
                forall|k: int|
                    0 <= k < i ==> (#[trigger] first[k])@ == spec_poly_values(
                        *trace.polys[0][self.spec_preprocessed()[k] as int],
                        eval_domain,
                    ),
            decreases self.preprocessed_column_indices.len() - i,
        {
            let index = self.preprocessed_column_indices[i];
            proof {
                assert(self.spec_preprocessed()[i as int] == index);
            }
            if index >= trace.polys[0].len() {
                return None;
            }
            let poly = trace.polys[0][index];
            if poly.log_size > eval_log_size || poly.coeffs.len() != pow2_usize(poly.log_size) {
                proof {
                    assert(!spec_poly_fits(
                        *trace.polys[0][self.spec_preprocessed()[i as int] as int],
                        eval_log_size,
                    ));
                }
                return None;
            }
            first.push(poly.evaluate(eval_domain).values);
            i = i + 1;
        }
        out.push(first);
        proof {
            assert(spec_trace_view(out@)[0] =~= want[0]);
        }
        let mut t: usize = 1;
        while t < self.trace_locations.len()
            invariant
                1 <= t,
                out.len() == t,
                t <= self.trace_locations.len() || self.trace_locations.len() == 0,
                self.trace_locations.len() == 0 ==> t == 1,
                trace.polys.len() >= self.trace_locations.len(),
                trace.polys.len() >= 1,
                eval_domain.wf(),
                eval_log_size == eval_domain.spec_log_size(),
                eval_log_size <= 30,
                want == self.spec_columns_on(spec_polys_model(trace.polys@), eval_domain),
                forall|k: int|
                    0 <= k < self.spec_preprocessed().len() ==> {
                        &&& (#[trigger] self.spec_preprocessed()[k]) < trace.polys[0].len()
                        &&& spec_poly_fits(
                            *trace.polys[0][self.spec_preprocessed()[k] as int],
                            eval_log_size,
                        )
                    },
                forall|k: int|
                    1 <= k < t ==> spec_span_fits(
                        #[trigger] spec_polys_model(trace.polys@)[k],
                        self.spec_locations()[k],
                        eval_log_size,
                    ),
                forall|k: int| 0 <= k < t ==> (#[trigger] spec_trace_view(out@)[k]) == want[k],
            decreases self.trace_locations.len() - t,
        {
            let span = self.trace_locations[t];
            if span.col_start > span.col_end || span.col_end > trace.polys[t].len() {
                proof {
                    assert(!spec_span_fits(spec_polys_model(trace.polys@)[t as int], self.spec_locations()[t as int], eval_log_size));
                }
                return None;
            }
            let mut tree: Vec<Vec<M31>> = Vec::new();
            let mut c: usize = span.col_start;
            while c < span.col_end
                invariant
                    span.col_start <= c <= span.col_end,
                    t < trace.polys.len(),
                    1 <= t < self.spec_locations().len(),
                    span == self.spec_locations()[t as int],
                    span.col_end <= trace.polys[t as int].len(),
                    eval_domain.wf(),
                    eval_log_size == eval_domain.spec_log_size(),
                    eval_log_size <= 30,
                    tree.len() == c - span.col_start,
                    forall|k: int|
                        span.col_start <= k < c ==> spec_poly_fits(
                            *#[trigger] trace.polys[t as int][k],
                            eval_log_size,
                        ),
                    forall|k: int|
                        0 <= k < tree.len() ==> (#[trigger] tree[k])@ == spec_poly_values(
                            *trace.polys[t as int][span.col_start + k],
                            eval_domain,
                        ),
                decreases span.col_end - c,
            {
                let poly = trace.polys[t][c];
                if poly.log_size > eval_log_size || poly.coeffs.len() != pow2_usize(poly.log_size) {
                    proof {
                        assert(!spec_poly_fits(*trace.polys[t as int][c as int], eval_log_size));
                        assert(spec_polys_model(trace.polys@)[t as int][c as int]
                            == *trace.polys[t as int][c as int]);
                        assert(!spec_span_fits(
                            spec_polys_model(trace.polys@)[t as int],
                            self.spec_locations()[t as int],
                            eval_log_size,
                        ));
                    }
                    return None;
                }
                tree.push(poly.evaluate(eval_domain).values);
                c = c + 1;
            }
            let ghost prior = spec_trace_view(out@);
            out.push(tree);
            proof {
                let now = spec_trace_view(out@);
                assert forall|k: int| 0 <= k < t + 1 implies (#[trigger] now[k]) == want[k] by {
                    if k < t {
                        assert(now[k] =~= prior[k]);
                    } else {
                        assert(now[k] =~= want[k]);
                    }
                }
            }
            t = t + 1;
        }
        proof {
            assert(spec_trace_view(out@) =~= want);
        }
        Some(out)
    }

    /// Whether the component has constraints, its evaluation domain is
    /// larger than its trace domain, the accumulator has room for that
    /// domain and powers for the constraints, and the trace holds the
    /// columns.
    pub open spec fn spec_domain_fits(
        self,
        polys: Seq<Seq<CirclePoly>>,
        accumulator: DomainEvaluationAccumulator,
    ) -> bool {
        let eval_log_size = self.spec_eval().spec_max_constraint_log_degree_bound();
        &&& self.spec_found().n_constraints > 0
        &&& self.spec_eval().spec_log_size() < eval_log_size <= 30
        &&& eval_log_size < accumulator.sub_accumulations.len()
        &&& self.spec_found().n_constraints <= accumulator.random_coeff_powers.len()
        &&& self.spec_polys_fit(polys, eval_log_size)
    }

    /// The same of an accumulator as plain values.
    pub open spec fn spec_model_fits(self, polys: Seq<Seq<CirclePoly>>, accumulator: AccumulatorModel) -> bool {
        let eval_log_size = self.spec_eval().spec_max_constraint_log_degree_bound();
        &&& self.spec_found().n_constraints > 0
        &&& self.spec_eval().spec_log_size() < eval_log_size <= 30
        &&& eval_log_size < accumulator.columns.len()
        &&& self.spec_found().n_constraints <= accumulator.powers.len()
        &&& self.spec_polys_fit(polys, eval_log_size)
    }

    /// The quotient that the component adds at a row of its evaluation
    /// domain: the first constraint takes the highest of the powers that
    /// the accumulator has left.
    pub open spec fn spec_domain_quotient(
        self,
        polys: Seq<Seq<CirclePoly>>,
        powers: Seq<QM31>,
        row: int,
    ) -> QM31 {
        let log_size = self.spec_eval().spec_log_size();
        let eval_log_size = self.spec_eval().spec_max_constraint_log_degree_bound();
        self.spec_row_quotient(
            self.spec_columns_on(polys, CanonicCoset::spec_circle_domain_of(eval_log_size as nat)),
            row as usize,
            Seq::new(
                self.spec_found().n_constraints as nat,
                |i: int| powers[powers.len() - 1 - i],
            ),
            eval_log_size,
            spec_denominator_inverses(log_size, eval_log_size)[row / (pow2(log_size as nat) as int)],
        )
    }
}

/// Whether the polynomial has as many coefficients as its size says, and
/// does not exceed the evaluation domain.
pub open spec fn spec_poly_fits(poly: CirclePoly, eval_log_size: u32) -> bool {
    &&& poly.log_size <= eval_log_size
    &&& poly.coeffs.len() == pow2(poly.log_size as nat)
}

/// Whether the columns of the span are there and fit.
pub open spec fn spec_span_fits(tree: Seq<CirclePoly>, span: TreeSubspan, eval_log_size: u32) -> bool {
    &&& span.col_start <= span.col_end <= tree.len()
    &&& forall|c: int| span.col_start <= c < span.col_end ==> spec_poly_fits(#[trigger] tree[c], eval_log_size)
}

/// The values of the polynomial on the domain, in bit-reversed order.
pub open spec fn spec_poly_values(poly: CirclePoly, domain: CircleDomain) -> Seq<M31> {
    spec_fft(spec_extend(poly.coeffs@, domain.spec_size()), domain, domain.spec_log_size())
}

/// The accumulation on the domain of `2^log_size` points, zero where there
/// is none.
pub open spec fn spec_model_column(accumulator: AccumulatorModel, log_size: int) -> Seq<QM31> {
    match accumulator.columns[log_size] {
        Some(column) => column,
        None => Seq::new(pow2(log_size as nat), |i: int| QM31::spec_zero()),
    }
}

impl<C: FrameworkEval> ComponentProver for FrameworkComponent<C> {
    /// Where the component, the trace and the accumulator fit, the
    /// component takes its powers, and the accumulation on its evaluation
    /// domain gains the quotient of every row; else nothing changes.
    open spec fn spec_on_domain(&self, trace: TraceModel, accumulator: AccumulatorModel) -> AccumulatorModel {
        if !self.spec_model_fits(trace.polys, accumulator) {
            accumulator
        } else {
            let eval_log_size = self.spec_eval().spec_max_constraint_log_degree_bound() as int;
            AccumulatorModel {
                powers: accumulator.powers.subrange(
                    0,
                    accumulator.powers.len() - self.spec_found().n_constraints,
                ),
                columns: accumulator.columns.update(
                    eval_log_size,
                    Some(
                        Seq::new(
                            pow2(eval_log_size as nat),
                            |row: int|
                                spec_model_column(accumulator, eval_log_size)[row].spec_add(
                                    self.spec_domain_quotient(
                                        trace.polys,
                                        accumulator.powers,
                                        row,
                                    ),
                                ),
                        ),
                    ),
                ),
            }
        }
    }

    /// Runs the declaration at every row of the evaluation domain and adds
    /// the quotient of the row to the accumulation of that domain. Where
    /// the component has nothing to add, or the trace or the accumulator
    /// does not fit, nothing changes.
    fn evaluate_constraint_quotients_on_domain(
        &self,
        trace: &Trace<'_>,
        accumulator: &mut DomainEvaluationAccumulator,
    )
        ensures
            !self.spec_domain_fits(spec_polys_model(trace.polys@), *old(accumulator)) ==> *final(accumulator) == *old(accumulator),
            self.spec_domain_fits(spec_polys_model(trace.polys@), *old(accumulator)) ==> {
                let eval_log_size = self.spec_eval().spec_max_constraint_log_degree_bound() as int;
                let powers = old(accumulator).random_coeff_powers@;
                &&& final(accumulator).random_coeff_powers@ == powers.subrange(
                    0,
                    powers.len() - self.spec_found().n_constraints,
                )
                &&& forall|l: int|
                    0 <= l < old(accumulator).sub_accumulations.len() && l != eval_log_size
                        ==> final(accumulator).sub_accumulations[l] == old(accumulator).sub_accumulations[l]
                &&& final(accumulator).spec_column(eval_log_size) == Seq::new(
                    pow2(eval_log_size as nat),
                    |row: int|
                        old(accumulator).spec_column(eval_log_size)[row].spec_add(
                            self.spec_domain_quotient(spec_polys_model(trace.polys@), powers, row),
                        ),
                )
            },
    {
        let n_constraints = self.n_constraints();
        if n_constraints == 0 {
            return;
        }
        let log_size = self.log_size();
        let eval_log_size = self.eval.max_constraint_log_degree_bound();
        if !(log_size < eval_log_size && eval_log_size <= 30) {
            return;
        }
        if eval_log_size as usize >= accumulator.sub_accumulations.len() || n_constraints
            > accumulator.random_coeff_powers.len() {
            return;
        }
        let eval_domain = CanonicCoset::new(eval_log_size).circle_domain();
        let columns = match self.columns_on(trace, eval_domain) {
            Some(columns) => columns,
            None => {
                return;
            },
        };
        let denominators = denominator_inverses(log_size, eval_log_size);
        let ghost powers = accumulator.random_coeff_powers@;
        let ghost start = accumulator.spec_column(eval_log_size as int);
        let coeffs = accumulator.take_coeffs(n_constraints);
        let n_rows = pow2_usize(eval_log_size);
        let rows_per_value = pow2_usize(log_size);
        proof {
            lemma_pow2_adds((eval_log_size - log_size) as nat, log_size as nat);
            lemma_pow2_pos(log_size as nat);
            assert(coeffs@ =~= Seq::new(n_constraints as nat, |i: int| powers[powers.len() - 1 - i]));
            assert(start.len() == n_rows);
            assert(accumulator.spec_column(eval_log_size as int) =~= Seq::new(
                n_rows as nat,
                |r: int|
                    if r < 0 {
                        start[r].spec_add(self.spec_domain_quotient(spec_polys_model(trace.polys@), powers, r))
                    } else {
                        start[r]
                    },
            ));
        }
        let mut row: usize = 0;
        while row < n_rows
            invariant
                row <= n_rows,
                n_rows == pow2(eval_log_size as nat),
                rows_per_value == pow2(log_size as nat),
                rows_per_value > 0,
                n_rows == pow2((eval_log_size - log_size) as nat) * rows_per_value,
                denominators.len() == pow2((eval_log_size - log_size) as nat),
                denominators@ == spec_denominator_inverses(log_size, eval_log_size),
                log_size == self.spec_eval().spec_log_size(),
                eval_log_size == self.spec_eval().spec_max_constraint_log_degree_bound(),
                eval_log_size <= 30,
                coeffs@ == Seq::new(
                    self.spec_found().n_constraints as nat,
                    |i: int| powers[powers.len() - 1 - i],
                ),
                spec_trace_view(columns@) == self.spec_columns_on(
                    spec_polys_model(trace.polys@),
                    CanonicCoset::spec_circle_domain_of(eval_log_size as nat),
                ),
                start.len() == n_rows,
                accumulator.wf(),
                accumulator.sub_accumulations.len() == old(accumulator).sub_accumulations.len(),
                eval_log_size < accumulator.sub_accumulations.len(),
                row > 0 ==> accumulator.sub_accumulations[eval_log_size as int].is_some(),
                accumulator.random_coeff_powers@ == powers.subrange(
                    0,
                    powers.len() - self.spec_found().n_constraints,
                ),
                forall|l: int|
                    0 <= l < old(accumulator).sub_accumulations.len() && l != eval_log_size
                        ==> accumulator.sub_accumulations[l] == old(accumulator).sub_accumulations[l],
                accumulator.spec_column(eval_log_size as int) == Seq::new(
                    n_rows as nat,
                    |r: int|
                        if r < row {
                            start[r].spec_add(self.spec_domain_quotient(spec_polys_model(trace.polys@), powers, r))
                        } else {
                            start[r]
                        },
                ),
            decreases n_rows - row,
        {
            let at = row / rows_per_value;
            proof {
                assert(at < denominators.len()) by (nonlinear_arith)
                    requires
                        at == row / rows_per_value,
                        row < denominators.len() * rows_per_value,
                        rows_per_value > 0,
                ;
            }
            let value = self.row_quotient(&columns, row, &coeffs, eval_log_size, denominators[at]);
            let ghost before = accumulator.spec_column(eval_log_size as int);
            accumulator.accumulate(eval_log_size, row, value);
            proof {
                assert(value == self.spec_domain_quotient(spec_polys_model(trace.polys@), powers, row as int));
                assert(accumulator.spec_column(eval_log_size as int) =~= Seq::new(
                    n_rows as nat,
                    |r: int|
                        if r < row + 1 {
                            start[r].spec_add(self.spec_domain_quotient(spec_polys_model(trace.polys@), powers, r))
                        } else {
                            start[r]
                        },
                ));
            }
            row = row + 1;
        }
        proof {
            assert(accumulator.spec_column(eval_log_size as int) =~= Seq::new(
                pow2(eval_log_size as nat),
                |row: int| start[row].spec_add(self.spec_domain_quotient(spec_polys_model(trace.polys@), powers, row)),
            ));
            vstd::arithmetic::power2::lemma_pow2_pos(eval_log_size as nat);
            let before = old(accumulator).model();
            assert(self.spec_model_fits(spec_polys_model(trace.polys@), before));
            assert(start == spec_model_column(before, eval_log_size as int));
            assert(accumulator.model().columns =~= self.spec_on_domain(trace.model(), before).columns);
        }
    }
}

} // verus!
