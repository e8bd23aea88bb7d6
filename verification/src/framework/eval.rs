//! The interface through which a component declares its constraints. An
//! evaluator hands out the values of the mask one column after the other,
//! and takes in the constraints and the fractions of the lookups. Columns are
//! matched by position: the `k`-th request for a tree is served by the `k`-th
//! column that the component owns in that tree.

use vstd::prelude::*;
use crate::fields::m31::M31;
use crate::fields::qm31::QM31;
use crate::fraction::Fraction;
use crate::framework::columns::PreProcessedColumnId;
use crate::framework::logup::{spec_write_frac, LogupModel};
use crate::verification::PREPROCESSED_TRACE_IDX;

verus! {

/// The tree of the main trace.
pub const ORIGINAL_TRACE_IDX: usize = 1;

/// The tree of the columns that depend on drawn elements.
pub const INTERACTION_TRACE_IDX: usize = 2;

/// A named lookup relation with the elements drawn for it.
pub struct Relation {
    pub name: String,
    pub z: QM31,
    pub alpha_powers: Vec<QM31>,
}

/// One use or one yield of a tuple of values in a relation.
pub struct RelationEntry<'a, F, EF> {
    pub relation: &'a Relation,
    pub multiplicity: EF,
    pub values: &'a Vec<F>,
}

impl<'a, F, EF> RelationEntry<'a, F, EF> {
    pub fn new(relation: &'a Relation, multiplicity: EF, values: &'a Vec<F>) -> (r: RelationEntry<
        'a,
        F,
        EF,
    >)
        ensures
            r.relation == relation,
            r.multiplicity == multiplicity,
            r.values == values,
    {
        RelationEntry { relation, multiplicity, values }
    }
}

/// The greatest of the first `n` batches; zero if there is none.
pub open spec fn spec_last_batch(batching: Seq<usize>, n: nat) -> usize
    decreases n,
{
    if n == 0 {
        0
    } else {
        let rest = spec_last_batch(batching, (n - 1) as nat);
        if batching[n - 1] > rest {
            batching[n - 1]
        } else {
            rest
        }
    }
}

/// Whether a fraction belongs to the batch.
pub open spec fn spec_batch_used(batching: Seq<usize>, batch: usize) -> bool {
    exists|i: int| 0 <= i < batching.len() && #[trigger] batching[i] == batch
}

/// What is asked of a batching when the lookups of a row are closed: the
/// row has fractions that wait, the batching names a batch for each of them,
/// every batch up to the last has a fraction, and the tree of the
/// cumulative sums is not that of the preprocessed columns.
pub open spec fn spec_batching_fits<EF>(logup: LogupModel<EF>, batching: Seq<usize>) -> bool {
    &&& !logup.is_finalized
    &&& batching.len() == logup.fracs.len()
    &&& batching.len() >= 1
    &&& 0 < logup.interaction < usize::MAX
    &&& forall|b: usize|
        b <= spec_last_batch(batching, batching.len()) ==> #[trigger] spec_batch_used(batching, b)
}

/// The batching that puts every fraction into a batch of its own.
pub open spec fn spec_single_batches(n: nat) -> Seq<usize> {
    Seq::new(n, |i: int| i as usize)
}

/// The batching that puts the fractions into batches of two.
pub open spec fn spec_pair_batches(n: nat) -> Seq<usize> {
    Seq::new(n, |i: int| (i / 2) as usize)
}

/// The sum of two fractions in the values of the evaluator.
pub open spec fn spec_frac_add<E: EvalAtRow>(a: Fraction<E::EF, E::EF>, b: Fraction<E::EF, E::EF>) -> Fraction<
    E::EF,
    E::EF,
> {
    Fraction {
        numerator: E::spec_ef_add(
            E::spec_ef_mul(b.denominator, a.numerator),
            E::spec_ef_mul(a.denominator, b.numerator),
        ),
        denominator: E::spec_ef_mul(a.denominator, b.denominator),
    }
}

/// The sum of those of the first `n` fractions that belong to the batch,
/// added from the first on, if there is one.
pub open spec fn spec_batch_sum<E: EvalAtRow>(
    fracs: Seq<Fraction<E::EF, E::EF>>,
    batching: Seq<usize>,
    batch: usize,
    n: nat,
) -> Option<Fraction<E::EF, E::EF>>
    decreases n,
{
    if n == 0 {
        None
    } else {
        let rest = spec_batch_sum::<E>(fracs, batching, batch, (n - 1) as nat);
        if batching[n - 1] != batch {
            rest
        } else {
            match rest {
                None => Some(fracs[n - 1]),
                Some(s) => Some(spec_frac_add::<E>(s, fracs[n - 1])),
            }
        }
    }
}

/// The sum of the fractions of the batch; `0/1` for a batch without one.
pub open spec fn spec_batch_total<E: EvalAtRow>(
    fracs: Seq<Fraction<E::EF, E::EF>>,
    batching: Seq<usize>,
    batch: usize,
) -> Fraction<E::EF, E::EF> {
    match spec_batch_sum::<E>(fracs, batching, batch, fracs.len()) {
        Some(s) => s,
        None => Fraction {
            numerator: E::spec_secure(QM31::spec_zero()),
            denominator: E::spec_secure(QM31::spec_one()),
        },
    }
}

/// The sum of the first `n` values of a tuple, each times its power of
/// `alpha`, in the values of the evaluator.
pub open spec fn spec_relation_sum<E: EvalAtRow>(powers: Seq<QM31>, values: Seq<E::F>, n: nat) -> E::EF
    decreases n,
{
    if n == 0 {
        E::spec_secure(QM31::spec_zero())
    } else {
        E::spec_ef_add(
            spec_relation_sum::<E>(powers, values, (n - 1) as nat),
            E::spec_ef_mul(E::spec_secure(powers[n - 1]), E::spec_embed(values[n - 1])),
        )
    }
}

/// The denominator of a tuple in a relation: `z - sum_i alpha^i * values_i`.
pub open spec fn spec_relation_combine<E: EvalAtRow>(z: QM31, powers: Seq<QM31>, values: Seq<E::F>) -> E::EF {
    E::spec_ef_sub(E::spec_secure(z), spec_relation_sum::<E>(powers, values, values.len()))
}

/// The state after one column of extension values was read: four columns
/// of the tree, with the same offsets, joined value by value.
pub open spec fn spec_next_extension_mask<E: EvalAtRow>(
    m: E::Model,
    interaction: usize,
    offsets: Seq<isize>,
) -> (E::Model, Seq<E::EF>) {
    let (m0, c0) = E::spec_next_interaction_mask(m, interaction, offsets);
    let (m1, c1) = E::spec_next_interaction_mask(m0, interaction, offsets);
    let (m2, c2) = E::spec_next_interaction_mask(m1, interaction, offsets);
    let (m3, c3) = E::spec_next_interaction_mask(m2, interaction, offsets);
    (m3, Seq::new(offsets.len(), |j: int| E::spec_combine_ef(seq![c0[j], c1[j], c2[j], c3[j]])))
}

/// The state after the batches from `batch` on, up to the one before
/// `last`, were constrained: each reads its column of cumulative sums and
/// asks that it exceeds the column before, `prev`, by the sum of the batch.
/// With the state comes the column read last.
pub open spec fn spec_close_batches<E: EvalAtRow>(
    m: E::Model,
    fracs: Seq<Fraction<E::EF, E::EF>>,
    batching: Seq<usize>,
    interaction: usize,
    batch: usize,
    last: usize,
    prev: E::EF,
) -> (E::Model, E::EF)
    decreases last - batch,
{
    if batch >= last {
        (m, prev)
    } else {
        let frac = spec_batch_total::<E>(fracs, batching, batch);
        let (m1, cur) = spec_next_extension_mask::<E>(m, interaction, seq![0isize]);
        let diff = E::spec_ef_sub(cur[0], prev);
        let m2 = E::spec_add_constraint(
            m1,
            E::spec_ef_sub(E::spec_ef_mul(diff, frac.denominator), frac.numerator),
        );
        spec_close_batches::<E>(m2, fracs, batching, interaction, (batch + 1) as usize, last, cur[0])
    }
}

/// The state after the lookups of the row were closed. The last batch
/// reads the cumulative sum at the row before and at the row itself: their
/// difference, less the column before, plus the shift, must be the sum of
/// the batch. With the shift the differences sum to zero over the rows, so
/// that the constraint is the same on every row.
pub open spec fn spec_finalize_logup<E: EvalAtRow>(m: E::Model, batching: Seq<usize>) -> E::Model {
    let logup = E::spec_logup(m);
    let last = spec_last_batch(batching, batching.len());
    let (m1, prev_col) = spec_close_batches::<E>(
        m,
        logup.fracs,
        batching,
        logup.interaction,
        0,
        last,
        E::spec_secure(QM31::spec_zero()),
    );
    let frac = spec_batch_total::<E>(logup.fracs, batching, last);
    let (m2, sums) = spec_next_extension_mask::<E>(m1, logup.interaction, seq![-1isize, 0isize]);
    let diff = E::spec_ef_sub(E::spec_ef_sub(sums[1], sums[0]), prev_col);
    let shifted = E::spec_ef_add(diff, E::spec_secure(logup.cumsum_shift));
    E::spec_close_logup(
        E::spec_add_constraint(
            m2,
            E::spec_ef_sub(E::spec_ef_mul(shifted, frac.denominator), frac.numerator),
        ),
    )
}

/// An evaluator of the constraints of a component at one row, or at one
/// point, or for their count alone. `F` stands for a value of the base field
/// and `EF` for one of the extension; `Model` is the state of the evaluator
/// as plain values, over which its steps are stated.
pub trait EvalAtRow: Sized {
    type F: Copy;

    type EF: Copy;

    type Model;

    spec fn model(&self) -> Self::Model;

    /// The constant `v`.
    spec fn spec_base(v: M31) -> Self::F;

    /// The constant `v`.
    spec fn spec_secure(v: QM31) -> Self::EF;

    /// The base value as a value of the extension.
    spec fn spec_embed(v: Self::F) -> Self::EF;

    spec fn spec_ef_add(a: Self::EF, b: Self::EF) -> Self::EF;

    spec fn spec_ef_sub(a: Self::EF, b: Self::EF) -> Self::EF;

    spec fn spec_ef_mul(a: Self::EF, b: Self::EF) -> Self::EF;

    /// The extension value with the four base values as its coordinates.
    spec fn spec_combine_ef(values: Seq<Self::F>) -> Self::EF;

    /// The state after the next column of the tree was read, and the values
    /// of that column at the offsets.
    spec fn spec_next_interaction_mask(m: Self::Model, interaction: usize, offsets: Seq<isize>) -> (
        Self::Model,
        Seq<Self::F>,
    );

    /// The state after the next preprocessed column was read, and its value
    /// at the row.
    spec fn spec_get_preprocessed_column(m: Self::Model, id: Seq<char>) -> (Self::Model, Self::F);

    /// The state after the constraint was taken in.
    spec fn spec_add_constraint(m: Self::Model, constraint: Self::EF) -> Self::Model;

    /// What the row has collected for its lookups.
    spec fn spec_logup(m: Self::Model) -> LogupModel<Self::EF>;

    /// The state after the fraction was written.
    spec fn spec_write_logup_frac(m: Self::Model, fraction: Fraction<Self::EF, Self::EF>) -> Self::Model;

    /// The state after a use of the named relation, with the multiplicity
    /// and the values of the entry, was noted.
    spec fn spec_note_relation(
        m: Self::Model,
        name: Seq<char>,
        multiplicity: Self::EF,
        values: Seq<Self::F>,
    ) -> Self::Model;

    /// The state after the lookups were marked as closed.
    spec fn spec_close_logup(m: Self::Model) -> Self::Model;

    /// Reading a column, naming a relation and taking in a constraint leave
    /// the lookups of the row as they are.
    proof fn lemma_logup_kept(
        m: Self::Model,
        interaction: usize,
        offsets: Seq<isize>,
        id: Seq<char>,
        constraint: Self::EF,
        values: Seq<Self::F>,
    )
        ensures
            Self::spec_logup(Self::spec_next_interaction_mask(m, interaction, offsets).0)
                == Self::spec_logup(m),
            Self::spec_logup(Self::spec_get_preprocessed_column(m, id).0) == Self::spec_logup(m),
            Self::spec_logup(Self::spec_add_constraint(m, constraint)) == Self::spec_logup(m),
            Self::spec_logup(Self::spec_note_relation(m, id, constraint, values))
                == Self::spec_logup(m),
    ;

    /// A fraction that is written joins those that wait, and the first one
    /// opens the lookups; closing them changes nothing else.
    proof fn lemma_logup_written(m: Self::Model, fraction: Fraction<Self::EF, Self::EF>)
        ensures
            Self::spec_logup(Self::spec_write_logup_frac(m, fraction)) == spec_write_frac(
                Self::spec_logup(m),
                fraction,
            ),
            Self::spec_logup(Self::spec_close_logup(m)) == (LogupModel {
                is_finalized: true,
                ..Self::spec_logup(m)
            }),
    ;

    fn base(v: M31) -> (r: Self::F)
        ensures
            r == Self::spec_base(v),
    ;

    fn secure(v: QM31) -> (r: Self::EF)
        ensures
            r == Self::spec_secure(v),
    ;

    fn embed(v: Self::F) -> (r: Self::EF)
        ensures
            r == Self::spec_embed(v),
    ;

    fn ef_add(a: Self::EF, b: Self::EF) -> (r: Self::EF)
        ensures
            r == Self::spec_ef_add(a, b),
    ;

    fn ef_sub(a: Self::EF, b: Self::EF) -> (r: Self::EF)
        ensures
            r == Self::spec_ef_sub(a, b),
    ;

    fn ef_mul(a: Self::EF, b: Self::EF) -> (r: Self::EF)
        ensures
            r == Self::spec_ef_mul(a, b),
    ;

    fn combine_ef(values: [Self::F; 4]) -> (r: Self::EF)
        ensures
            r == Self::spec_combine_ef(values@),
    ;

    /// Reads the next column of the tree at the offsets from the row.
    fn next_interaction_mask(&mut self, interaction: usize, offsets: &Vec<isize>) -> (r: Vec<Self::F>)
        requires
            interaction != PREPROCESSED_TRACE_IDX,
            interaction < usize::MAX,
        ensures
            (final(self).model(), r@) == Self::spec_next_interaction_mask(
                old(self).model(),
                interaction,
                offsets@,
            ),
            r.len() == offsets.len(),
    ;

    /// Reads the named preprocessed column at the row.
    fn get_preprocessed_column(&mut self, column: PreProcessedColumnId) -> (r: Self::F)
        ensures
            (final(self).model(), r) == Self::spec_get_preprocessed_column(
                old(self).model(),
                column.id@,
            ),
    ;

    /// Records that the constraint must be zero on every row.
    fn add_constraint(&mut self, constraint: Self::EF)
        ensures
            final(self).model() == Self::spec_add_constraint(old(self).model(), constraint),
    ;

    /// The fractions that wait to be constrained.
    fn logup_fracs(&self) -> (r: Vec<Fraction<Self::EF, Self::EF>>)
        ensures
            r@ == Self::spec_logup(self.model()).fracs,
    ;

    /// The tree of the cumulative sums.
    fn logup_interaction(&self) -> (r: usize)
        ensures
            r == Self::spec_logup(self.model()).interaction,
    ;

    /// The claimed sum over the number of rows.
    fn logup_shift(&self) -> (r: QM31)
        ensures
            r == Self::spec_logup(self.model()).cumsum_shift,
    ;

    /// Adds a fraction to those that wait.
    fn write_logup_frac(&mut self, fraction: Fraction<Self::EF, Self::EF>)
        ensures
            final(self).model() == Self::spec_write_logup_frac(old(self).model(), fraction),
    ;

    /// Notes a use of the named relation by an entry with the
    /// multiplicity and the values.
    fn note_relation(&mut self, name: &String, multiplicity: Self::EF, values: &Vec<Self::F>)
        ensures
            final(self).model() == Self::spec_note_relation(
                old(self).model(),
                name@,
                multiplicity,
                values@,
            ),
    ;

    /// Marks the lookups as closed.
    fn close_logup(&mut self)
        ensures
            final(self).model() == Self::spec_close_logup(old(self).model()),
    ;

    /// Reads the next column of the main trace at the row.
    fn next_trace_mask(&mut self) -> (r: Self::F)
        ensures
            ({
                let (m, values) = Self::spec_next_interaction_mask(
                    old(self).model(),
                    ORIGINAL_TRACE_IDX,
                    seq![0isize],
                );
                final(self).model() == m && r == values[0]
            }),
    {
        let mut offsets: Vec<isize> = Vec::new();
        offsets.push(0);
        proof {
            assert(offsets@ =~= seq![0isize]);
        }
        let values = self.next_interaction_mask(ORIGINAL_TRACE_IDX, &offsets);
        values[0]
    }
}

/// The greatest of the batches; zero if there is none.
pub fn last_batch(batching: &Vec<usize>) -> (r: usize)
    ensures
        r == spec_last_batch(batching@, batching.len() as nat),
{
    let mut last: usize = 0;
    let mut i: usize = 0;
    while i < batching.len()
        invariant
            i <= batching.len(),
            last == spec_last_batch(batching@, i as nat),
        decreases batching.len() - i,
    {
        if batching[i] > last {
            last = batching[i];
        }
        i = i + 1;
    }
    last
}

/// The sum of the fractions of the batch, added from the first on.
pub fn batch_total<E: EvalAtRow>(
    fracs: &Vec<Fraction<E::EF, E::EF>>,
    batching: &Vec<usize>,
    batch: usize,
) -> (r: Fraction<E::EF, E::EF>)
    requires
        fracs.len() == batching.len(),
    ensures
        r == spec_batch_total::<E>(fracs@, batching@, batch),
{
    let mut acc: Option<Fraction<E::EF, E::EF>> = None;
    let mut i: usize = 0;
    while i < fracs.len()
        invariant
            i <= fracs.len(),
            fracs.len() == batching.len(),
            acc == spec_batch_sum::<E>(fracs@, batching@, batch, i as nat),
        decreases fracs.len() - i,
    {
        if batching[i] == batch {
            let f = fracs[i];
            acc = match acc {
                None => Some(f),
                Some(s) => Some(
                    Fraction {
                        numerator: E::ef_add(
                            E::ef_mul(f.denominator, s.numerator),
                            E::ef_mul(s.denominator, f.numerator),
                        ),
                        denominator: E::ef_mul(s.denominator, f.denominator),
                    },
                ),
            };
        }
        i = i + 1;
    }
    match acc {
        Some(s) => s,
        None => Fraction { numerator: E::secure(QM31::zero()), denominator: E::secure(QM31::one()) },
    }
}

/// Reads the next four columns of the tree as one column of extension
/// values.
pub fn next_extension_interaction_mask<E: EvalAtRow>(
    eval: &mut E,
    interaction: usize,
    offsets: &Vec<isize>,
) -> (r: Vec<E::EF>)
    requires
        interaction != PREPROCESSED_TRACE_IDX,
        interaction < usize::MAX,
    ensures
        (final(eval).model(), r@) == spec_next_extension_mask::<E>(
            old(eval).model(),
            interaction,
            offsets@,
        ),
        r.len() == offsets.len(),
{
    let c0 = eval.next_interaction_mask(interaction, offsets);
    let c1 = eval.next_interaction_mask(interaction, offsets);
    let c2 = eval.next_interaction_mask(interaction, offsets);
    let c3 = eval.next_interaction_mask(interaction, offsets);
    let mut out: Vec<E::EF> = Vec::with_capacity(offsets.len());
    let mut j: usize = 0;
    while j < offsets.len()
        invariant
            j <= offsets.len(),
            c0.len() == offsets.len(),
            c1.len() == offsets.len(),
            c2.len() == offsets.len(),
            c3.len() == offsets.len(),
            out.len() == j,
            forall|k: int|
                0 <= k < j ==> out[k] == E::spec_combine_ef(seq![c0[k], c1[k], c2[k], c3[k]]),
        decreases offsets.len() - j,
    {
        let values = [c0[j], c1[j], c2[j], c3[j]];
        proof {
            assert(values@ =~= seq![c0[j as int], c1[j as int], c2[j as int], c3[j as int]]);
        }
        out.push(E::combine_ef(values));
        j = j + 1;
    }
    proof {
        assert(out@ =~= spec_next_extension_mask::<E>(
            old(eval).model(),
            interaction,
            offsets@,
        ).1);
    }
    out
}

/// Writes the fraction `multiplicity / (z - sum_i alpha^i * values_i)`
/// of a tuple in a relation.
pub fn add_to_relation<E: EvalAtRow>(eval: &mut E, entry: RelationEntry<'_, E::F, E::EF>)
    requires
        entry.values.len() <= entry.relation.alpha_powers.len(),
    ensures
        final(eval).model() == E::spec_write_logup_frac(
            E::spec_note_relation(
                old(eval).model(),
                entry.relation.name@,
                entry.multiplicity,
                entry.values@,
            ),
            Fraction {
                numerator: entry.multiplicity,
                denominator: spec_relation_combine::<E>(
                    entry.relation.z,
                    entry.relation.alpha_powers@,
                    entry.values@,
                ),
            },
        ),
{
    let mut acc = E::secure(QM31::zero());
    let mut i: usize = 0;
    while i < entry.values.len()
        invariant
            i <= entry.values.len() <= entry.relation.alpha_powers.len(),
            acc == spec_relation_sum::<E>(
                entry.relation.alpha_powers@,
                entry.values@,
                i as nat,
            ),
        decreases entry.values.len() - i,
    {
        acc = E::ef_add(
            acc,
            E::ef_mul(
                E::secure(entry.relation.alpha_powers[i]),
                E::embed(entry.values[i]),
            ),
        );
        i = i + 1;
    }
    let denominator = E::ef_sub(E::secure(entry.relation.z), acc);
    eval.note_relation(&entry.relation.name, entry.multiplicity, entry.values);
    eval.write_logup_frac(Fraction { numerator: entry.multiplicity, denominator });
}

/// Closes the lookups of the row: the fractions are summed by batch,
/// and each batch is constrained against its column of cumulative
/// sums.
pub fn finalize_logup_batched<E: EvalAtRow>(eval: &mut E, batching: &Vec<usize>)
    requires
        spec_batching_fits(E::spec_logup(old(eval).model()), batching@),
    ensures
        final(eval).model() == spec_finalize_logup::<E>(old(eval).model(), batching@),
{
    let fracs = eval.logup_fracs();
    let interaction = eval.logup_interaction();
    let shift = E::secure(eval.logup_shift());
    let last = last_batch(batching);
    let mut here: Vec<isize> = Vec::new();
    here.push(0);
    let mut both: Vec<isize> = Vec::new();
    both.push(-1);
    both.push(0);
    proof {
        assert(here@ =~= seq![0isize]);
        assert(both@ =~= seq![-1isize, 0isize]);
    }
    let mut prev = E::secure(QM31::zero());
    let mut batch: usize = 0;
    while batch < last
        invariant
            batch <= last,
            here@ == seq![0isize],
            fracs.len() == batching.len(),
            0 < interaction < usize::MAX,
            spec_close_batches::<E>(
                eval.model(),
                fracs@,
                batching@,
                interaction,
                batch,
                last,
                prev,
            ) == spec_close_batches::<E>(
                old(eval).model(),
                fracs@,
                batching@,
                interaction,
                0,
                last,
                E::spec_secure(QM31::spec_zero()),
            ),
        decreases last - batch,
    {
        let frac = batch_total::<E>(&fracs, batching, batch);
        let cur = next_extension_interaction_mask(eval, interaction, &here);
        let diff = E::ef_sub(cur[0], prev);
        eval.add_constraint(E::ef_sub(E::ef_mul(diff, frac.denominator), frac.numerator));
        prev = cur[0];
        batch = batch + 1;
    }
    let frac = batch_total::<E>(&fracs, batching, last);
    let sums = next_extension_interaction_mask(eval, interaction, &both);
    let diff = E::ef_sub(E::ef_sub(sums[1], sums[0]), prev);
    let shifted = E::ef_add(diff, shift);
    eval.add_constraint(E::ef_sub(E::ef_mul(shifted, frac.denominator), frac.numerator));
    eval.close_logup();
}

/// Closes the lookups of the row with every fraction in a batch of its
/// own.
pub fn finalize_logup<E: EvalAtRow>(eval: &mut E)
    requires
        spec_batching_fits(
            E::spec_logup(old(eval).model()),
            spec_single_batches(E::spec_logup(old(eval).model()).fracs.len()),
        ),
    ensures
        final(eval).model() == spec_finalize_logup::<E>(
            old(eval).model(),
            spec_single_batches(E::spec_logup(old(eval).model()).fracs.len()),
        ),
{
    let n = eval.logup_fracs().len();
    let mut batches: Vec<usize> = Vec::with_capacity(n);
    let mut i: usize = 0;
    while i < n
        invariant
            i <= n,
            batches.len() == i,
            forall|k: int| 0 <= k < i ==> batches[k] == k as usize,
        decreases n - i,
    {
        batches.push(i);
        i = i + 1;
    }
    proof {
        assert(batches@ =~= spec_single_batches(n as nat));
    }
    finalize_logup_batched(eval, &batches)
}

/// Closes the lookups of the row with the fractions in batches of two.
pub fn finalize_logup_in_pairs<E: EvalAtRow>(eval: &mut E)
    requires
        spec_batching_fits(
            E::spec_logup(old(eval).model()),
            spec_pair_batches(E::spec_logup(old(eval).model()).fracs.len()),
        ),
    ensures
        final(eval).model() == spec_finalize_logup::<E>(
            old(eval).model(),
            spec_pair_batches(E::spec_logup(old(eval).model()).fracs.len()),
        ),
{
    let n = eval.logup_fracs().len();
    let mut batches: Vec<usize> = Vec::with_capacity(n);
    let mut i: usize = 0;
    while i < n
        invariant
            i <= n,
            batches.len() == i,
            forall|k: int| 0 <= k < i ==> batches[k] == (k / 2) as usize,
        decreases n - i,
    {
        batches.push(i / 2);
        i = i + 1;
    }
    proof {
        assert(batches@ =~= spec_pair_batches(n as nat));
    }
    finalize_logup_batched(eval, &batches)
}

} // verus!
