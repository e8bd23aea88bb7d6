//! Components: the parts of an AIR, each with its columns, its mask and
//! its constraints.

use vstd::prelude::*;
use crate::air::accumulation::PointEvaluationAccumulator;
use crate::circle::secure_point::SecureCirclePoint;
use crate::fields::qm31::QM31;
use crate::verification::PREPROCESSED_TRACE_IDX;

verus! {

/// The values of the mask as sequences.
pub open spec fn spec_mask_view(mask: Seq<Vec<Vec<QM31>>>) -> Seq<Seq<Seq<QM31>>> {
    Seq::new(mask.len(), |t: int| Seq::new(mask[t].len() as nat, |c: int| mask[t][c]@))
}

/// The points of the mask as sequences.
pub open spec fn spec_points_view(points: Seq<Vec<Vec<SecureCirclePoint>>>) -> Seq<
    Seq<Seq<SecureCirclePoint>>,
> {
    Seq::new(points.len(), |t: int| Seq::new(points[t].len() as nat, |c: int| points[t][c]@))
}

/// The bounds by tree and column as sequences.
pub open spec fn spec_bounds_view(bounds: Seq<Vec<u32>>) -> Seq<Seq<u32>> {
    Seq::new(bounds.len(), |t: int| bounds[t]@)
}

/// A part of an AIR. What a component answers depends on the component and
/// on the arguments alone.
pub trait Component {
    spec fn spec_n_constraints(&self) -> usize;

    spec fn spec_max_constraint_log_degree_bound(&self) -> u32;

    /// The degree bound of each column of each tree.
    spec fn spec_trace_log_degree_bounds(&self) -> Seq<Seq<u32>>;

    /// The points at which each column of each tree is sampled, given the
    /// point out of the domain.
    spec fn spec_mask_points(&self, point: SecureCirclePoint) -> Seq<Seq<Seq<SecureCirclePoint>>>;

    /// The preprocessed columns that the component reads.
    spec fn spec_preprocessed_column_indices(&self) -> Seq<usize>;

    /// Whether the mask holds every value that the component reads.
    spec fn spec_accepts_mask(&self, mask: Seq<Seq<Seq<QM31>>>) -> bool;

    /// The accumulator after the quotients of the constraints of the
    /// component at `point` were accumulated.
    spec fn spec_evaluate_constraint_quotients_at_point(
        &self,
        point: SecureCirclePoint,
        mask: Seq<Seq<Seq<QM31>>>,
        accumulator: PointEvaluationAccumulator,
    ) -> PointEvaluationAccumulator;

    fn n_constraints(&self) -> (r: usize)
        ensures
            r == self.spec_n_constraints(),
    ;

    fn max_constraint_log_degree_bound(&self) -> (r: u32)
        ensures
            r == self.spec_max_constraint_log_degree_bound(),
    ;

    fn trace_log_degree_bounds(&self) -> (r: Vec<Vec<u32>>)
        ensures
            spec_bounds_view(r@) == self.spec_trace_log_degree_bounds(),
    ;

    fn mask_points(&self, point: SecureCirclePoint) -> (r: Vec<Vec<Vec<SecureCirclePoint>>>)
        ensures
            spec_points_view(r@) == self.spec_mask_points(point),
    ;

    fn preproccessed_column_indices(&self) -> (r: Vec<usize>)
        ensures
            r@ == self.spec_preprocessed_column_indices(),
    ;

    fn accepts_mask(&self, mask: &Vec<Vec<Vec<QM31>>>) -> (r: bool)
        ensures
            r == self.spec_accepts_mask(spec_mask_view(mask@)),
    ;

    fn evaluate_constraint_quotients_at_point(
        &self,
        point: SecureCirclePoint,
        mask: &Vec<Vec<Vec<QM31>>>,
        evaluation_accumulator: &mut PointEvaluationAccumulator,
    )
        requires
            self.spec_accepts_mask(spec_mask_view(mask@)),
        ensures
            *final(evaluation_accumulator) == self.spec_evaluate_constraint_quotients_at_point(
                point,
                spec_mask_view(mask@),
                *old(evaluation_accumulator),
            ),
    ;
}

/// The largest of the degree bounds of the first `n` components.
pub open spec fn spec_composition_log_degree_bound<C: Component>(components: Seq<C>, n: nat) -> u32
    decreases n,
{
    if n == 0 {
        0
    } else {
        let head = spec_composition_log_degree_bound(components, (n - 1) as nat);
        let b = components[n - 1].spec_max_constraint_log_degree_bound();
        if b > head {
            b
        } else {
            head
        }
    }
}

/// The accumulator after the first `n` components accumulated their
/// quotients at the point, in their order.
pub open spec fn spec_accumulate_components<C: Component>(
    components: Seq<C>,
    point: SecureCirclePoint,
    mask: Seq<Seq<Seq<QM31>>>,
    accumulator: PointEvaluationAccumulator,
    n: nat,
) -> PointEvaluationAccumulator
    decreases n,
{
    if n == 0 {
        accumulator
    } else {
        components[n - 1].spec_evaluate_constraint_quotients_at_point(
            point,
            mask,
            spec_accumulate_components(components, point, mask, accumulator, (n - 1) as nat),
        )
    }
}

/// Whether every component finds in the mask the values that it reads.
pub open spec fn spec_all_accept<C: Component>(components: Seq<C>, mask: Seq<Seq<Seq<QM31>>>) -> bool {
    forall|i: int| 0 <= i < components.len() ==> (#[trigger] components[i]).spec_accepts_mask(mask)
}

/// The columns of each tree of the first `n` components, one component
/// after the other.
pub open spec fn spec_concat_cols<C: Component>(
    components: Seq<C>,
    point: SecureCirclePoint,
    n: nat,
) -> Seq<Seq<Seq<SecureCirclePoint>>>
    decreases n,
{
    if n == 0 {
        Seq::empty()
    } else {
        spec_append_cols(
            spec_concat_cols(components, point, (n - 1) as nat),
            components[n - 1].spec_mask_points(point),
        )
    }
}

/// The trees of `a`, each followed by the columns of the same tree of `b`;
/// there are as many trees as the longer of the two has.
pub open spec fn spec_append_cols<T>(a: Seq<Seq<T>>, b: Seq<Seq<T>>) -> Seq<Seq<T>> {
    Seq::new(
        if a.len() >= b.len() {
            a.len()
        } else {
            b.len()
        },
        |t: int|
            (if t < a.len() {
                a[t]
            } else {
                Seq::empty()
            }) + (if t < b.len() {
                b[t]
            } else {
                Seq::empty()
            }),
    )
}

/// Whether a component reads the preprocessed column: one of the
/// components before the `c`-th, or the `c`-th among the first `j` of the
/// columns that it names.
pub open spec fn spec_reads_before<C: Component>(components: Seq<C>, column: int, c: int, j: int) -> bool {
    exists|a: int, b: int|
        0 <= a < components.len() && 0 <= b < components[a].spec_preprocessed_column_indices().len()
            && (a < c || (a == c && b < j))
            && #[trigger] components[a].spec_preprocessed_column_indices()[b] == column
}

/// Whether one of the components reads the preprocessed column.
pub open spec fn spec_reads_column<C: Component>(components: Seq<C>, column: int) -> bool {
    spec_reads_before(components, column, components.len() as int, 0)
}

/// The points at which the preprocessed columns are sampled: the point
/// itself where a component reads the column, and nothing where none does.
pub open spec fn spec_preprocessed_points<C: Component>(
    components: Seq<C>,
    n_preprocessed_columns: nat,
    point: SecureCirclePoint,
) -> Seq<Seq<SecureCirclePoint>> {
    Seq::new(
        n_preprocessed_columns,
        |k: int|
            if spec_reads_column(components, k) {
                seq![point]
            } else {
                Seq::empty()
            },
    )
}

/// The points at which the columns are sampled: the columns of the
/// components one after the other in each tree, with the tree of the
/// preprocessed columns in the first place.
pub open spec fn spec_all_mask_points<C: Component>(
    components: Seq<C>,
    n_preprocessed_columns: nat,
    point: SecureCirclePoint,
) -> Seq<Seq<Seq<SecureCirclePoint>>> {
    let concat = spec_concat_cols(components, point, components.len());
    let preprocessed = spec_preprocessed_points(components, n_preprocessed_columns, point);
    if concat.len() == 0 {
        seq![preprocessed]
    } else {
        concat.update(0, preprocessed)
    }
}

/// The components of an AIR, with the number of its preprocessed columns.
pub struct Components<'a, C: Component> {
    pub components: &'a Vec<C>,
    pub n_preprocessed_columns: usize,
}

impl<'a, C: Component> Components<'a, C> {
    /// The degree bound of the composition polynomial: the largest bound
    /// of the constraints of a component, zero if there is no component.
    pub fn composition_log_degree_bound(&self) -> (r: u32)
        ensures
            r == spec_composition_log_degree_bound(
                self.components@,
                self.components.len() as nat,
            ),
    {
        let mut bound: u32 = 0;
        let mut i: usize = 0;
        while i < self.components.len()
            invariant
                i <= self.components.len(),
                bound == spec_composition_log_degree_bound(self.components@, i as nat),
            decreases self.components.len() - i,
        {
            let b = self.components[i].max_constraint_log_degree_bound();
            if b > bound {
                bound = b;
            }
            i = i + 1;
        }
        bound
    }

    /// The value of the composition polynomial at `point`, from the values
    /// of the mask: the quotients of all the components, accumulated with
    /// powers of the random coefficient.
    pub fn eval_composition_polynomial_at_point(
        &self,
        point: SecureCirclePoint,
        mask_values: &Vec<Vec<Vec<QM31>>>,
        random_coeff: QM31,
    ) -> (r: QM31)
        requires
            spec_all_accept(self.components@, spec_mask_view(mask_values@)),
        ensures
            ({
                let start = PointEvaluationAccumulator::spec_new(random_coeff);
                r == spec_accumulate_components(
                    self.components@,
                    point,
                    spec_mask_view(mask_values@),
                    start,
                    self.components.len() as nat,
                ).spec_accumulation()
            }),
    {
        let mut evaluation_accumulator = PointEvaluationAccumulator::new(random_coeff);
        let mut i: usize = 0;
        while i < self.components.len()
            invariant
                i <= self.components.len(),
                spec_all_accept(self.components@, spec_mask_view(mask_values@)),
                evaluation_accumulator == spec_accumulate_components(
                    self.components@,
                    point,
                    spec_mask_view(mask_values@),
                    PointEvaluationAccumulator::spec_new(random_coeff),
                    i as nat,
                ),
            decreases self.components.len() - i,
        {
            assert(self.components@[i as int].spec_accepts_mask(spec_mask_view(mask_values@)));
            self.components[i].evaluate_constraint_quotients_at_point(
                point,
                mask_values,
                &mut evaluation_accumulator,
            );
            i = i + 1;
        }
        evaluation_accumulator.finalize()
    }

    /// Whether every component finds in the mask the values that it reads.
    pub fn all_accept(&self, mask_values: &Vec<Vec<Vec<QM31>>>) -> (r: bool)
        ensures
            r == spec_all_accept(self.components@, spec_mask_view(mask_values@)),
    {
        let mut i: usize = 0;
        while i < self.components.len()
            invariant
                i <= self.components.len(),
                forall|k: int|
                    0 <= k < i ==> (#[trigger] self.components@[k]).spec_accepts_mask(
                        spec_mask_view(mask_values@),
                    ),
            decreases self.components.len() - i,
        {
            if !self.components[i].accepts_mask(mask_values) {
                return false;
            }
            i = i + 1;
        }
        true
    }

    /// The points at which the columns are sampled: the columns of the
    /// components one after the other in each tree, except that the tree of
    /// the preprocessed columns has one entry for each preprocessed column,
    /// with the point itself where a component reads the column and nothing
    /// where none does.
    pub fn mask_points(&self, point: SecureCirclePoint) -> (r: Vec<Vec<Vec<SecureCirclePoint>>>)
        ensures
            spec_points_view(r@) == spec_all_mask_points(
                self.components@,
                self.n_preprocessed_columns as nat,
                point,
            ),
            r.len() >= 1,
            r.len() == (if spec_concat_cols(
                self.components@,
                point,
                self.components.len() as nat,
            ).len() >= 1 {
                spec_concat_cols(self.components@, point, self.components.len() as nat).len()
            } else {
                1
            }),
            forall|t: int|
                1 <= t < r.len() ==> spec_points_view(r@)[t] == spec_concat_cols(
                    self.components@,
                    point,
                    self.components.len() as nat,
                )[t],
            r[0].len() == self.n_preprocessed_columns,
    {
        let mut mask_points: Vec<Vec<Vec<SecureCirclePoint>>> = Vec::new();
        let mut i: usize = 0;
        proof {
            assert(spec_points_view(mask_points@) =~= spec_concat_cols(self.components@, point, 0));
        }
        while i < self.components.len()
            invariant
                i <= self.components.len(),
                spec_points_view(mask_points@) == spec_concat_cols(
                    self.components@,
                    point,
                    i as nat,
                ),
            decreases self.components.len() - i,
        {
            let ghost before = spec_points_view(mask_points@);
            let component_points = self.components[i].mask_points(point);
            let ghost added = spec_points_view(component_points@);
            append_cols(&mut mask_points, component_points);
            i = i + 1;
        }
        let ghost concat = spec_points_view(mask_points@);
        let mut preprocessed: Vec<Vec<SecureCirclePoint>> = Vec::with_capacity(
            self.n_preprocessed_columns,
        );
        let mut k: usize = 0;
        while k < self.n_preprocessed_columns
            invariant
                k <= self.n_preprocessed_columns,
                preprocessed.len() == k,
                forall|i: int|
                    0 <= i < k ==> (#[trigger] preprocessed[i])@ == Seq::<SecureCirclePoint>::empty(),
            decreases self.n_preprocessed_columns - k,
        {
            preprocessed.push(Vec::new());
            k = k + 1;
        }
        proof {
            assert forall|k: int| 0 <= k < preprocessed.len() implies !spec_reads_before(
                self.components@,
                k,
                0,
                0,
            ) by {}
        }
        let mut c: usize = 0;
        while c < self.components.len()
            invariant
                c <= self.components.len(),
                preprocessed.len() == self.n_preprocessed_columns,
                forall|k: int|
                    0 <= k < preprocessed.len() ==> (#[trigger] preprocessed[k])@ == (
                    if spec_reads_before(self.components@, k, c as int, 0) {
                        seq![point]
                    } else {
                        Seq::empty()
                    }),
            decreases self.components.len() - c,
        {
            let indices = self.components[c].preproccessed_column_indices();
            let mut j: usize = 0;
            while j < indices.len()
                invariant
                    j <= indices.len(),
                    c < self.components.len(),
                    indices@ == self.components[c as int].spec_preprocessed_column_indices(),
                    preprocessed.len() == self.n_preprocessed_columns,
                    forall|k: int|
                        0 <= k < preprocessed.len() ==> (#[trigger] preprocessed[k])@ == (
                        if spec_reads_before(self.components@, k, c as int, j as int) {
                            seq![point]
                        } else {
                            Seq::empty()
                        }),
                decreases indices.len() - j,
            {
                let ghost before = preprocessed@;
                if indices[j] < preprocessed.len() {
                    let mut only: Vec<SecureCirclePoint> = Vec::new();
                    only.push(point);
                    proof {
                        assert(only@ =~= seq![point]);
                    }
                    preprocessed.set(indices[j], only);
                }
                proof {
                    let here = self.components@[c as int].spec_preprocessed_column_indices()[j as int];
                    assert forall|k: int| 0 <= k < preprocessed.len() implies (
                    #[trigger] preprocessed[k])@ == (if spec_reads_before(
                        self.components@,
                        k,
                        c as int,
                        j + 1,
                    ) {
                        seq![point]
                    } else {
                        Seq::empty()
                    }) by {
                        if k == here {
                            assert(spec_reads_before(self.components@, k, c as int, j + 1));
                        } else {
                            assert(preprocessed[k] == before[k]);
                            assert(spec_reads_before(self.components@, k, c as int, j + 1)
                                == spec_reads_before(self.components@, k, c as int, j as int));
                        }
                    }
                }
                j = j + 1;
            }
            proof {
                assert forall|k: int| 0 <= k < preprocessed.len() implies spec_reads_before(
                    self.components@,
                    k,
                    c as int,
                    j as int,
                ) == spec_reads_before(self.components@, k, c + 1, 0) by {}
            }
            c = c + 1;
        }
        let ghost pre = Seq::new(preprocessed.len() as nat, |k: int| preprocessed[k]@);
        proof {
            assert(pre =~= spec_preprocessed_points(
                self.components@,
                self.n_preprocessed_columns as nat,
                point,
            ));
        }
        if mask_points.len() == 0 {
            mask_points.push(preprocessed);
        } else {
            mask_points.set(PREPROCESSED_TRACE_IDX, preprocessed);
        }
        proof {
            assert forall|t: int| 1 <= t < mask_points.len() implies spec_points_view(
                mask_points@,
            )[t] == concat[t] by {
                assert(spec_points_view(mask_points@)[t] =~= concat[t]);
            }
            assert(spec_points_view(mask_points@)[0] =~= pre);
            assert(spec_points_view(mask_points@) =~= spec_all_mask_points(
                self.components@,
                self.n_preprocessed_columns as nat,
                point,
            ));
        }
        mask_points
    }
}

/// Appends to each tree of `trees` the columns of the same tree of `more`.
pub fn append_cols(
    trees: &mut Vec<Vec<Vec<SecureCirclePoint>>>,
    more: Vec<Vec<Vec<SecureCirclePoint>>>,
)
    ensures
        spec_points_view(final(trees)@) == spec_append_cols(
            spec_points_view(old(trees)@),
            spec_points_view(more@),
        ),
{
    let ghost a = spec_points_view(trees@);
    let ghost b = spec_points_view(more@);
    let n = if trees.len() >= more.len() {
        trees.len()
    } else {
        more.len()
    };
    let mut out: Vec<Vec<Vec<SecureCirclePoint>>> = Vec::with_capacity(n);
    let mut t: usize = 0;
    while t < n
        invariant
            t <= n,
            n == (if trees.len() >= more.len() {
                trees.len()
            } else {
                more.len()
            }),
            a == spec_points_view(trees@),
            b == spec_points_view(more@),
            out.len() == t,
            forall|k: int|
                0 <= k < t ==> spec_points_view(out@)[k] == spec_append_cols(a, b)[k],
        decreases n - t,
    {
        let mut tree: Vec<Vec<SecureCirclePoint>> = Vec::new();
        if t < trees.len() {
            let mut c: usize = 0;
            while c < trees[t].len()
                invariant
                    t < trees.len(),
                    c <= trees[t as int].len(),
                    tree.len() == c,
                    forall|k: int| 0 <= k < c ==> tree[k]@ == trees[t as int][k]@,
                decreases trees[t as int].len() - c,
            {
                tree.push(copy_points(&trees[t][c]));
                c = c + 1;
            }
        }
        let ghost from_a = tree.len();
        if t < more.len() {
            let mut c: usize = 0;
            while c < more[t].len()
                invariant
                    t < more.len(),
                    c <= more[t as int].len(),
                    tree.len() == from_a + c,
                    forall|k: int| 0 <= k < from_a ==> tree[k]@ == trees[t as int][k]@,
                    forall|k: int| 0 <= k < c ==> tree[from_a + k]@ == more[t as int][k]@,
                decreases more[t as int].len() - c,
            {
                tree.push(copy_points(&more[t][c]));
                c = c + 1;
            }
        }
        let ghost out_before = spec_points_view(out@);
        out.push(tree);
        proof {
            let got = spec_points_view(out@)[t as int];
            let want = spec_append_cols(a, b)[t as int];
            assert(got =~= want) by {
                assert(got.len() == want.len());
                assert forall|k: int| 0 <= k < got.len() implies got[k] == want[k] by {
                    if k < from_a {
                        assert(a[t as int][k] == trees[t as int][k]@);
                    } else {
                        assert(b[t as int][k - from_a] == more[t as int][k - from_a]@);
                    }
                }
            }
            assert forall|k: int| 0 <= k < t implies spec_points_view(out@)[k]
                == spec_append_cols(a, b)[k] by {
                assert(spec_points_view(out@)[k] =~= out_before[k]);
            }
        }
        t = t + 1;
    }
    proof {
        assert(spec_points_view(out@) =~= spec_append_cols(a, b));
    }
    *trees = out;
}

/// A copy of the points.
fn copy_points(points: &Vec<SecureCirclePoint>) -> (r: Vec<SecureCirclePoint>)
    ensures
        r@ == points@,
{
    crate::utils::copy_vec(points)
}

} // verus!
