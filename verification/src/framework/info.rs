//! The evaluator that only takes stock: which columns a component reads and
//! at which offsets, which preprocessed columns it names, how many
//! constraints it has and how often it uses each relation.

use vstd::prelude::*;
use crate::fields::m31::M31;
use crate::fields::qm31::QM31;
use crate::fraction::Fraction;
use crate::framework::columns::{spec_ids, PreProcessedColumnId};
use crate::framework::counts::{
    count_use, spec_count_use, spec_no_counts, spec_one_more, RelationCounts,
};
use crate::framework::eval::{EvalAtRow, INTERACTION_TRACE_IDX};
use crate::framework::logup::{spec_write_frac, LogupAtRow, LogupModel};
use crate::utils::copy_vec;

verus! {

/// A value of which nothing is known but that it is there.
#[derive(Debug, Clone, Copy, PartialEq, Eq, Structural)]
pub struct Symbol;

/// The state of the evaluator as plain values.
pub struct InfoModel {
    /// For each tree, and each column in the order of the requests, the
    /// offsets at which the column is read.
    pub mask_offsets: Seq<Seq<Seq<isize>>>,
    pub n_constraints: usize,
    /// The preprocessed columns in the order of the requests.
    pub preprocessed_columns: Seq<Seq<char>>,
    pub logup: LogupModel<Symbol>,
    /// For each relation that was used, the number of its uses.
    pub logup_counts: Map<Seq<char>, usize>,
}

/// The offsets by tree and column as sequences.
pub open spec fn spec_offsets_view(offsets: Seq<Vec<Vec<isize>>>) -> Seq<Seq<Seq<isize>>> {
    Seq::new(offsets.len(), |t: int| Seq::new(offsets[t].len() as nat, |c: int| offsets[t][c]@))
}

/// The trees up to `interaction`, with empty ones added where they lacked,
/// and the offsets as one more column of that tree.
pub open spec fn spec_record(
    mask_offsets: Seq<Seq<Seq<isize>>>,
    interaction: usize,
    offsets: Seq<isize>,
) -> Seq<Seq<Seq<isize>>> {
    let n = if mask_offsets.len() <= interaction {
        (interaction + 1) as nat
    } else {
        mask_offsets.len()
    };
    Seq::new(
        n,
        |t: int|
            {
                let tree = if t < mask_offsets.len() {
                    mask_offsets[t]
                } else {
                    Seq::empty()
                };
                if t == interaction {
                    tree.push(offsets)
                } else {
                    tree
                }
            },
    )
}

/// Collects what a component asks of its evaluator.
pub struct InfoEvaluator {
    pub mask_offsets: Vec<Vec<Vec<isize>>>,
    pub n_constraints: usize,
    pub preprocessed_columns: Vec<PreProcessedColumnId>,
    pub logup: LogupAtRow<Symbol>,
    pub logup_counts: RelationCounts,
}

impl InfoEvaluator {
    /// The evaluator before it was asked anything.
    pub open spec fn spec_new(log_size: u32, preprocessed_columns: Seq<Seq<char>>, claimed_sum: QM31) -> InfoModel {
        InfoModel {
            mask_offsets: Seq::empty(),
            n_constraints: 0,
            preprocessed_columns,
            logup: LogupModel {
                interaction: INTERACTION_TRACE_IDX,
                cumsum_shift: LogupAtRow::<Symbol>::spec_shift(claimed_sum, log_size),
                fracs: Seq::empty(),
                is_finalized: true,
                log_size,
            },
            logup_counts: spec_no_counts(),
        }
    }

    pub fn new(log_size: u32, preprocessed_columns: Vec<PreProcessedColumnId>, claimed_sum: QM31) -> (r:
        InfoEvaluator)
        requires
            log_size <= 30,
        ensures
            r.model() == Self::spec_new(log_size, spec_ids(preprocessed_columns@), claimed_sum),
    {
        let r = InfoEvaluator {
            mask_offsets: Vec::new(),
            n_constraints: 0,
            preprocessed_columns,
            logup: LogupAtRow::new(INTERACTION_TRACE_IDX, claimed_sum, log_size),
            logup_counts: RelationCounts::new(),
        };
        proof {
            assert(r.model().mask_offsets =~= Seq::empty());
        }
        r
    }
}

impl EvalAtRow for InfoEvaluator {
    type F = Symbol;

    type EF = Symbol;

    type Model = InfoModel;

    open spec fn model(&self) -> InfoModel {
        InfoModel {
            mask_offsets: spec_offsets_view(self.mask_offsets@),
            n_constraints: self.n_constraints,
            preprocessed_columns: spec_ids(self.preprocessed_columns@),
            logup: self.logup.model(),
            logup_counts: self.logup_counts.spec_counts(),
        }
    }

    open spec fn spec_base(v: M31) -> Symbol {
        Symbol
    }

    open spec fn spec_secure(v: QM31) -> Symbol {
        Symbol
    }

    open spec fn spec_embed(v: Symbol) -> Symbol {
        Symbol
    }

    open spec fn spec_ef_add(a: Symbol, b: Symbol) -> Symbol {
        Symbol
    }

    open spec fn spec_ef_sub(a: Symbol, b: Symbol) -> Symbol {
        Symbol
    }

    open spec fn spec_ef_mul(a: Symbol, b: Symbol) -> Symbol {
        Symbol
    }

    open spec fn spec_combine_ef(values: Seq<Symbol>) -> Symbol {
        Symbol
    }

    /// The offsets are recorded as the next column of the tree.
    open spec fn spec_next_interaction_mask(m: InfoModel, interaction: usize, offsets: Seq<isize>) -> (
        InfoModel,
        Seq<Symbol>,
    ) {
        (
            InfoModel { mask_offsets: spec_record(m.mask_offsets, interaction, offsets), ..m },
            Seq::new(offsets.len(), |i: int| Symbol),
        )
    }

    /// The column is recorded as the next preprocessed column.
    open spec fn spec_get_preprocessed_column(m: InfoModel, id: Seq<char>) -> (InfoModel, Symbol) {
        (InfoModel { preprocessed_columns: m.preprocessed_columns.push(id), ..m }, Symbol)
    }

    /// The constraint is counted.
    open spec fn spec_add_constraint(m: InfoModel, constraint: Symbol) -> InfoModel {
        InfoModel { n_constraints: spec_one_more(m.n_constraints), ..m }
    }

    open spec fn spec_logup(m: InfoModel) -> LogupModel<Symbol> {
        m.logup
    }

    open spec fn spec_write_logup_frac(m: InfoModel, fraction: Fraction<Symbol, Symbol>) -> InfoModel {
        InfoModel { logup: spec_write_frac(m.logup, fraction), ..m }
    }

    /// The use of the relation is counted.
    open spec fn spec_note_relation(m: InfoModel, name: Seq<char>, multiplicity: Symbol, values: Seq<Symbol>) -> InfoModel {
        InfoModel { logup_counts: spec_count_use(m.logup_counts, name), ..m }
    }

    open spec fn spec_close_logup(m: InfoModel) -> InfoModel {
        InfoModel { logup: LogupModel { is_finalized: true, ..m.logup }, ..m }
    }

    proof fn lemma_logup_kept(m: InfoModel, interaction: usize, offsets: Seq<isize>, id: Seq<char>, constraint: Symbol, values: Seq<Symbol>) {
    }

    proof fn lemma_logup_written(m: InfoModel, fraction: Fraction<Symbol, Symbol>) {
    }

    fn base(v: M31) -> (r: Symbol) {
        Symbol
    }

    fn secure(v: QM31) -> (r: Symbol) {
        Symbol
    }

    fn embed(v: Symbol) -> (r: Symbol) {
        Symbol
    }

    fn ef_add(a: Symbol, b: Symbol) -> (r: Symbol) {
        Symbol
    }

    fn ef_sub(a: Symbol, b: Symbol) -> (r: Symbol) {
        Symbol
    }

    fn ef_mul(a: Symbol, b: Symbol) -> (r: Symbol) {
        Symbol
    }

    fn combine_ef(values: [Symbol; 4]) -> (r: Symbol) {
        Symbol
    }

    fn next_interaction_mask(&mut self, interaction: usize, offsets: &Vec<isize>) -> (r: Vec<Symbol>) {
        let ghost before = spec_offsets_view(self.mask_offsets@);
        while self.mask_offsets.len() <= interaction
            invariant
                interaction < usize::MAX,
                self.mask_offsets.len() >= before.len(),
                before.len() <= interaction ==> self.mask_offsets.len() <= interaction + 1,
                before.len() > interaction ==> self.mask_offsets.len() == before.len(),
                forall|t: int|
                    0 <= t < self.mask_offsets.len() ==> #[trigger] spec_offsets_view(
                        self.mask_offsets@,
                    )[t] == if t < before.len() {
                        before[t]
                    } else {
                        Seq::<Seq<isize>>::empty()
                    },
                self.n_constraints == old(self).n_constraints,
                self.preprocessed_columns == old(self).preprocessed_columns,
                self.logup == old(self).logup,
                self.logup_counts == old(self).logup_counts,
            decreases interaction + 1 - self.mask_offsets.len(),
        {
            let ghost prior = spec_offsets_view(self.mask_offsets@);
            self.mask_offsets.push(Vec::new());
            proof {
                let now = spec_offsets_view(self.mask_offsets@);
                assert forall|t: int| 0 <= t < self.mask_offsets.len() implies #[trigger] now[t]
                    == if t < before.len() {
                    before[t]
                } else {
                    Seq::<Seq<isize>>::empty()
                } by {
                    if t < self.mask_offsets.len() - 1 {
                        assert(now[t] =~= prior[t]);
                    } else {
                        assert(now[t] =~= Seq::<Seq<isize>>::empty());
                    }
                }
            }
        }
        let ghost widened = spec_offsets_view(self.mask_offsets@);
        let column = copy_vec(offsets);
        let mut tree: Vec<Vec<isize>> = Vec::new();
        let slot = &mut self.mask_offsets[interaction];
        core::mem::swap(&mut tree, slot);
        tree.push(column);
        *slot = tree;
        let mut values: Vec<Symbol> = Vec::with_capacity(offsets.len());
        let mut i: usize = 0;
        while i < offsets.len()
            invariant
                i <= offsets.len(),
                values.len() == i,
            decreases offsets.len() - i,
        {
            values.push(Symbol);
            i = i + 1;
        }
        proof {
            let now = spec_offsets_view(self.mask_offsets@);
            let want = spec_record(before, interaction, offsets@);
            assert(now.len() == want.len());
            assert forall|t: int| 0 <= t < now.len() implies now[t] == want[t] by {
                if t == interaction {
                    assert(now[t] =~= widened[t].push(offsets@));
                } else {
                    assert(now[t] =~= widened[t]);
                }
            }
            assert(now =~= want);
            assert(values@ =~= Seq::new(offsets.len() as nat, |i: int| Symbol));
        }
        values
    }

    fn get_preprocessed_column(&mut self, column: PreProcessedColumnId) -> (r: Symbol) {
        self.preprocessed_columns.push(column);
        proof {
            assert(spec_ids(self.preprocessed_columns@) =~= spec_ids(
                old(self).preprocessed_columns@,
            ).push(column.id@));
        }
        Symbol
    }

    fn add_constraint(&mut self, constraint: Symbol) {
        if self.n_constraints < usize::MAX {
            self.n_constraints = self.n_constraints + 1;
        }
    }

    fn logup_fracs(&self) -> (r: Vec<Fraction<Symbol, Symbol>>) {
        copy_vec(&self.logup.fracs)
    }

    fn logup_interaction(&self) -> (r: usize) {
        self.logup.interaction
    }

    fn logup_shift(&self) -> (r: QM31) {
        self.logup.cumsum_shift
    }

    fn write_logup_frac(&mut self, fraction: Fraction<Symbol, Symbol>) {
        if self.logup.fracs.len() == 0 {
            self.logup.is_finalized = false;
        }
        self.logup.fracs.push(fraction);
    }

    fn note_relation(&mut self, name: &String, multiplicity: Symbol, values: &Vec<Symbol>) {
        count_use(&mut self.logup_counts, name);
    }

    fn close_logup(&mut self) {
        self.logup.is_finalized = true;
    }
}

} // verus!
