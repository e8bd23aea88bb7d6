//! The entries of the relations that a component uses or yields on the
//! rows of a trace, and their sums: a help to find the lookups that do not
//! close.

use vstd::prelude::*;
use vstd::arithmetic::div_mod::{lemma_add_mod_noop_right, lemma_mod_multiples_vanish};
use vstd::arithmetic::power2::{lemma2_to64, lemma_pow2_adds, lemma_pow2_pos, pow2};
use crate::fields::m31::M31;
use crate::fields::qm31::QM31;
use crate::fraction::Fraction;
use crate::framework::columns::PreProcessedColumnId;
use crate::framework::component::{FrameworkComponent, FrameworkEval};
use crate::framework::eval::EvalAtRow;
use crate::framework::logup::{spec_write_frac, LogupAtRow, LogupModel};
use crate::utils::{
    bit_reverse_index, circle_domain_index_to_coset_index, coset_index_to_circle_domain_index,
    copy_vec, lemma_bit_reverse_bound, lemma_pow2_monotone, pow2_usize, spec_bit_reverse_index,
    spec_circle_domain_index_to_coset_index, spec_coset_index_to_circle_domain_index,
};
use crate::verification::PREPROCESSED_TRACE_IDX;

verus! {

/// One use or one yield of a tuple of values in a relation, on one row.
#[derive(Debug)]
pub struct RelationTrackerEntry {
    pub relation: String,
    pub mult: M31,
    pub values: Vec<M31>,
}

/// An entry as plain values.
pub ghost struct EntryModel {
    pub relation: Seq<char>,
    pub mult: M31,
    pub values: Seq<M31>,
}

impl RelationTrackerEntry {
    pub open spec fn model(self) -> EntryModel {
        EntryModel { relation: self.relation@, mult: self.mult, values: self.values@ }
    }
}

/// The entries as plain values.
pub open spec fn spec_entries(entries: Seq<RelationTrackerEntry>) -> Seq<EntryModel> {
    Seq::new(entries.len(), |i: int| entries[i].model())
}

/// The values without the zeros at their end.
pub open spec fn spec_trim(values: Seq<M31>) -> Seq<M31>
    decreases values.len(),
{
    if values.len() > 0 && values.last() == M31::spec_zero() {
        spec_trim(values.drop_last())
    } else {
        values
    }
}

/// The values without the zeros at their end.
pub fn trim(values: &Vec<M31>) -> (r: Vec<M31>)
    ensures
        r@ == spec_trim(values@),
{
    let mut out = copy_vec(values);
    while out.len() > 0 && out[out.len() - 1].is_zero()
        invariant
            spec_trim(out@) == spec_trim(values@),
        decreases out.len(),
    {
        out.pop();
    }
    out
}

/// The first of the sums from `from` on that belongs to the values.
pub open spec fn spec_find_values(sums: Seq<(Seq<M31>, M31)>, values: Seq<M31>, from: nat) -> Option<
    nat,
>
    decreases sums.len() - from,
{
    if from >= sums.len() {
        None
    } else if sums[from as int].0 == values {
        Some(from)
    } else {
        spec_find_values(sums, values, from + 1)
    }
}

/// The sums with the multiplicity added to the sum of the values; values
/// that were not there yet come last, with the multiplicity as their sum.
pub open spec fn spec_add_sum(sums: Seq<(Seq<M31>, M31)>, values: Seq<M31>, mult: M31) -> Seq<
    (Seq<M31>, M31),
> {
    match spec_find_values(sums, values, 0) {
        Some(i) => sums.update(i as int, (values, sums[i as int].1.spec_add(mult))),
        None => sums.push((values, M31::spec_zero().spec_add(mult))),
    }
}

/// The first of the relations from `from` on that bears the name.
pub open spec fn spec_find_relation(
    summary: Seq<(Seq<char>, Seq<(Seq<M31>, M31)>)>,
    name: Seq<char>,
    from: nat,
) -> Option<nat>
    decreases summary.len() - from,
{
    if from >= summary.len() {
        None
    } else if summary[from as int].0 == name {
        Some(from)
    } else {
        spec_find_relation(summary, name, from + 1)
    }
}

/// The summary with the entry added to the sums of its relation: its
/// values count without the zeros at their end. A relation that was not
/// there yet comes last.
pub open spec fn spec_add_entry(
    summary: Seq<(Seq<char>, Seq<(Seq<M31>, M31)>)>,
    entry: EntryModel,
) -> Seq<(Seq<char>, Seq<(Seq<M31>, M31)>)> {
    match spec_find_relation(summary, entry.relation, 0) {
        Some(i) => summary.update(
            i as int,
            (entry.relation, spec_add_sum(summary[i as int].1, spec_trim(entry.values), entry.mult)),
        ),
        None => summary.push(
            (entry.relation, spec_add_sum(Seq::empty(), spec_trim(entry.values), entry.mult)),
        ),
    }
}

/// The summary of the first `n` entries: for each relation, in the order
/// in which the relations first occur, the sum of the multiplicities of
/// each tuple of values, in the order in which the tuples first occur.
pub open spec fn spec_summarize(entries: Seq<EntryModel>, n: nat) -> Seq<
    (Seq<char>, Seq<(Seq<M31>, M31)>),
>
    decreases n,
{
    if n == 0 {
        Seq::empty()
    } else {
        spec_add_entry(spec_summarize(entries, (n - 1) as nat), entries[n - 1])
    }
}

/// The sums without those that are zero.
pub open spec fn spec_clean_sums(sums: Seq<(Seq<M31>, M31)>, n: nat) -> Seq<(Seq<M31>, M31)>
    decreases n,
{
    if n == 0 {
        Seq::empty()
    } else if sums[n - 1].1 == M31::spec_zero() {
        spec_clean_sums(sums, (n - 1) as nat)
    } else {
        spec_clean_sums(sums, (n - 1) as nat).push(sums[n - 1])
    }
}

/// The summary without the sums that are zero and without the relations of
/// which no sum is left.
pub open spec fn spec_cleaned(summary: Seq<(Seq<char>, Seq<(Seq<M31>, M31)>)>, n: nat) -> Seq<
    (Seq<char>, Seq<(Seq<M31>, M31)>),
>
    decreases n,
{
    if n == 0 {
        Seq::empty()
    } else {
        let sums = spec_clean_sums(summary[n - 1].1, summary[n - 1].1.len());
        if sums.len() == 0 {
            spec_cleaned(summary, (n - 1) as nat)
        } else {
            spec_cleaned(summary, (n - 1) as nat).push((summary[n - 1].0, sums))
        }
    }
}

/// The sums as plain values.
pub open spec fn spec_sums_view(sums: Seq<(Vec<M31>, M31)>) -> Seq<(Seq<M31>, M31)> {
    Seq::new(sums.len(), |j: int| (sums[j].0@, sums[j].1))
}

/// The relations with their sums as plain values.
pub open spec fn spec_summary_view(summary: Seq<(String, Vec<(Vec<M31>, M31)>)>) -> Seq<
    (Seq<char>, Seq<(Seq<M31>, M31)>),
> {
    Seq::new(summary.len(), |i: int| (summary[i].0@, spec_sums_view(summary[i].1@)))
}

/// Whether two lists hold the same values.
fn same_values(a: &Vec<M31>, b: &Vec<M31>) -> (r: bool)
    ensures
        r == (a@ == b@),
{
    if a.len() != b.len() {
        return false;
    }
    let mut i: usize = 0;
    while i < a.len()
        invariant
            i <= a.len(),
            a.len() == b.len(),
            forall|k: int| 0 <= k < i ==> a[k] == b[k],
        decreases a.len() - i,
    {
        if a[i] != b[i] {
            assert(a@[i as int] != b@[i as int]);
            return false;
        }
        i = i + 1;
    }
    assert(a@ =~= b@);
    true
}

/// The place of the values among the sums.
fn find_values(sums: &Vec<(Vec<M31>, M31)>, values: &Vec<M31>) -> (r: Option<usize>)
    ensures
        match r {
            Some(j) => j < sums.len() && spec_find_values(spec_sums_view(sums@), values@, 0) == Some(
                j as nat,
            ),
            None => spec_find_values(spec_sums_view(sums@), values@, 0).is_none(),
        },
{
    let ghost view = spec_sums_view(sums@);
    let mut j: usize = 0;
    while j < sums.len()
        invariant
            j <= sums.len(),
            view == spec_sums_view(sums@),
            spec_find_values(view, values@, 0) == spec_find_values(view, values@, j as nat),
        decreases sums.len() - j,
    {
        assert(view[j as int].0 == sums[j as int].0@);
        if same_values(&sums[j].0, values) {
            return Some(j);
        }
        j = j + 1;
    }
    None
}

/// Adds the multiplicity to the sum of the values.
fn add_sum(sums: &mut Vec<(Vec<M31>, M31)>, values: Vec<M31>, mult: M31)
    ensures
        spec_sums_view(final(sums)@) == spec_add_sum(spec_sums_view(old(sums)@), values@, mult),
{
    let ghost before = spec_sums_view(sums@);
    match find_values(sums, &values) {
        Some(j) => {
            let sum = sums[j].1.add(mult);
            sums.set(j, (values, sum));
            assert(spec_sums_view(sums@) =~= spec_add_sum(before, values@, mult));
        },
        None => {
            sums.push((values, M31::zero().add(mult)));
            assert(spec_sums_view(sums@) =~= spec_add_sum(before, values@, mult));
        },
    }
}

/// The sums of the entries by relation and by tuple of values.
pub struct RelationSummary(Vec<(String, Vec<(Vec<M31>, M31)>)>);

impl RelationSummary {
    /// The relations with the sums of their tuples.
    pub closed spec fn spec_relations(self) -> Seq<(Seq<char>, Seq<(Seq<M31>, M31)>)> {
        spec_summary_view(self.0@)
    }

    /// The place of the relation in the summary.
    fn find_relation(&self, name: &String) -> (r: Option<usize>)
        ensures
            match r {
                Some(i) => i < self.0.len() && spec_find_relation(self.spec_relations(), name@, 0)
                    == Some(i as nat),
                None => spec_find_relation(self.spec_relations(), name@, 0).is_none(),
            },
    {
        let ghost view = self.spec_relations();
        let mut i: usize = 0;
        while i < self.0.len()
            invariant
                i <= self.0.len(),
                view == self.spec_relations(),
                spec_find_relation(view, name@, 0) == spec_find_relation(view, name@, i as nat),
            decreases self.0.len() - i,
        {
            assert(view[i as int].0 == self.0[i as int].0@);
            if self.0[i].0 == *name {
                return Some(i);
            }
            i = i + 1;
        }
        None
    }

    /// Adds an entry to the sums of its relation.
    fn add_entry(&mut self, entry: &RelationTrackerEntry)
        ensures
            final(self).spec_relations() == spec_add_entry(old(self).spec_relations(), entry.model()),
    {
        let ghost before = self.spec_relations();
        let values = trim(&entry.values);
        match self.find_relation(&entry.relation) {
            Some(i) => {
                let (name, mut sums) = self.0.remove(i);
                add_sum(&mut sums, values, entry.mult);
                self.0.insert(i, (entry.relation.clone(), sums));
                assert(self.spec_relations() =~= spec_add_entry(before, entry.model()));
            },
            None => {
                let mut sums: Vec<(Vec<M31>, M31)> = Vec::new();
                assert(spec_sums_view(sums@) =~= Seq::empty());
                add_sum(&mut sums, values, entry.mult);
                self.0.push((entry.relation.clone(), sums));
                assert(self.spec_relations() =~= spec_add_entry(before, entry.model()));
            },
        }
    }

    /// For each relation the sum of the multiplicities of every tuple of
    /// values that the entries hold for it. Zeros at the end of a tuple do
    /// not count.
    pub fn summarize_relations(entries: &Vec<RelationTrackerEntry>) -> (r: RelationSummary)
        ensures
            r.spec_relations() == spec_summarize(spec_entries(entries@), entries.len() as nat),
    {
        let mut summary = RelationSummary(Vec::new());
        assert(summary.spec_relations() =~= Seq::empty());
        let mut i: usize = 0;
        while i < entries.len()
            invariant
                i <= entries.len(),
                summary.spec_relations() == spec_summarize(spec_entries(entries@), i as nat),
            decreases entries.len() - i,
        {
            summary.add_entry(&entries[i]);
            i = i + 1;
        }
        summary
    }

    /// The sums of the tuples of the relation, if the summary holds it.
    pub fn get_relation_info(&self, relation: &String) -> (r: Option<&Vec<(Vec<M31>, M31)>>)
        ensures
            match spec_find_relation(self.spec_relations(), relation@, 0) {
                Some(i) => r.is_some() && spec_sums_view(r.unwrap()@) == self.spec_relations()[i as int].1,
                None => r.is_none(),
            },
    {
        match self.find_relation(relation) {
            Some(i) => Some(&self.0[i].1),
            None => None,
        }
    }

    /// The summary without the sums that are zero, and without the
    /// relations of which no sum is left.
    pub fn cleaned(self) -> (r: RelationSummary)
        ensures
            r.spec_relations() == spec_cleaned(
                self.spec_relations(),
                self.spec_relations().len(),
            ),
    {
        let ghost all = self.spec_relations();
        let mut out: Vec<(String, Vec<(Vec<M31>, M31)>)> = Vec::new();
        assert(spec_summary_view(out@) =~= Seq::empty());
        let mut i: usize = 0;
        while i < self.0.len()
            invariant
                i <= self.0.len(),
                all == self.spec_relations(),
                spec_summary_view(out@) == spec_cleaned(all, i as nat),
            decreases self.0.len() - i,
        {
            let sums = &self.0[i].1;
            let ghost those = spec_sums_view(sums@);
            assert(all[i as int].1 == those);
            let mut kept: Vec<(Vec<M31>, M31)> = Vec::new();
            assert(spec_sums_view(kept@) =~= Seq::empty());
            let mut j: usize = 0;
            while j < sums.len()
                invariant
                    j <= sums.len(),
                    those == spec_sums_view(sums@),
                    spec_sums_view(kept@) == spec_clean_sums(those, j as nat),
                decreases sums.len() - j,
            {
                let ghost before = spec_sums_view(kept@);
                if !sums[j].1.is_zero() {
                    kept.push((copy_vec(&sums[j].0), sums[j].1));
                    assert(spec_sums_view(kept@) =~= before.push(those[j as int]));
                }
                j = j + 1;
            }
            let ghost before = spec_summary_view(out@);
            if kept.len() > 0 {
                let ghost kept_view = spec_sums_view(kept@);
                out.push((self.0[i].0.clone(), kept));
                assert(spec_summary_view(out@) =~= before.push((all[i as int].0, kept_view)));
            }
            i = i + 1;
        }
        RelationSummary(out)
    }
}

} // verus!

verus! {

/// The row, in bit-reversed order, of the point that lies `offset` steps of
/// the trace domain behind the point of the row.
pub open spec fn spec_offset_row(row: nat, log_size: u32, offset: int) -> nat {
    let size = pow2(log_size as nat) as int;
    let coset_index = spec_circle_domain_index_to_coset_index(
        spec_bit_reverse_index(row, log_size as nat),
        log_size as nat,
    );
    let next = (coset_index + offset) % size;
    spec_bit_reverse_index(
        spec_coset_index_to_circle_domain_index(next as nat, log_size as nat),
        log_size as nat,
    )
}

/// The row of the point that lies `offset` steps behind the point of the
/// row.
pub fn offset_row(row: usize, log_size: u32, offset: isize) -> (r: usize)
    requires
        1 <= log_size <= 30,
        row < pow2(log_size as nat),
    ensures
        r == spec_offset_row(row as nat, log_size, offset as int),
        r < pow2(log_size as nat),
{
    let size = pow2_usize(log_size);
    let ghost n = size as int;
    proof {
        lemma2_to64();
        lemma_bit_reverse_bound(row as nat, log_size as nat);
        lemma_pow2_monotone(log_size as nat, 30);
        lemma_pow2_pos(log_size as nat);
        lemma_pow2_adds(log_size as nat, (64 - log_size) as nat);
        lemma_pow2_pos((64 - log_size) as nat);
        assert(pow2(30) == 0x4000_0000);
        assert(pow2(64) == 0x1_0000_0000_0000_0000);
    }
    let prev = bit_reverse_index(row, log_size);
    let coset_index = circle_domain_index_to_coset_index(prev, log_size);
    let lifted: i128 = (offset as i128) + 0x1_0000_0000_0000_0000i128;
    let reduced: u128 = (lifted as u128) % (size as u128);
    proof {
        let k = pow2((64 - log_size) as nat) as int;
        assert(n * k == 0x1_0000_0000_0000_0000);
        lemma_mod_multiples_vanish(k, offset as int, n);
        assert(reduced as int == (offset as int) % n);
        lemma_add_mod_noop_right(coset_index as int, offset as int, n);
    }
    let next: u128 = ((coset_index as u128) + reduced) % (size as u128);
    let at = coset_index_to_circle_domain_index(next as usize, log_size);
    proof {
        lemma_bit_reverse_bound(at as nat, log_size as nat);
    }
    bit_reverse_index(at, log_size)
}

/// The state of the tracker as plain values.
pub ghost struct TrackerModel {
    /// The entries that were noted.
    pub entries: Seq<EntryModel>,
    /// For each tree the columns of the component, each with its values on
    /// the rows of the trace.
    pub trace: Seq<Seq<Seq<M31>>>,
    /// For each tree, the next column to read.
    pub column_index: Seq<usize>,
    pub row: usize,
    pub log_size: u32,
    pub logup: LogupModel<QM31>,
}

/// The columns of each tree, as sequences.
pub open spec fn spec_columns_view(trace: Seq<Vec<&Vec<M31>>>) -> Seq<Seq<Seq<M31>>> {
    Seq::new(trace.len(), |t: int| Seq::new(trace[t].len() as nat, |c: int| trace[t][c]@))
}

/// Whether the next column of the tree is there and holds the row.
pub open spec fn spec_can_read(m: TrackerModel, interaction: usize) -> bool {
    &&& 1 <= m.log_size <= 30
    &&& m.row < pow2(m.log_size as nat)
    &&& interaction < m.trace.len()
    &&& interaction < m.column_index.len()
    &&& m.column_index[interaction as int] < m.trace[interaction as int].len()
    &&& m.trace[interaction as int][m.column_index[interaction as int] as int].len() == pow2(
        m.log_size as nat,
    )
}

/// The value of the column at the offset from the row.
pub open spec fn spec_value_at(m: TrackerModel, column: Seq<M31>, offset: isize) -> M31 {
    if offset == 0 {
        column[m.row as int]
    } else {
        column[spec_offset_row(m.row as nat, m.log_size, offset as int) as int]
    }
}

/// The state after the next column of the tree was read, and its values at
/// the offsets from the row. Where the column is not there, or does not
/// hold the row, nothing changes and the values are zero.
pub open spec fn spec_read_row(m: TrackerModel, interaction: usize, offsets: Seq<isize>) -> (
    TrackerModel,
    Seq<M31>,
) {
    if spec_can_read(m, interaction) {
        let col = m.column_index[interaction as int];
        let column = m.trace[interaction as int][col as int];
        (
            TrackerModel {
                column_index: m.column_index.update(interaction as int, (col + 1) as usize),
                ..m
            },
            Seq::new(offsets.len(), |k: int| spec_value_at(m, column, offsets[k])),
        )
    } else {
        (m, Seq::new(offsets.len(), |k: int| M31::spec_zero()))
    }
}

/// Notes the entries of the relations that a component declares at one
/// row: the values are read from the columns of the trace, nothing is
/// constrained, and every tuple that is added to a relation is kept with
/// the first coordinate of its multiplicity.
pub struct RelationTrackerEvaluator<'a> {
    entries: Vec<RelationTrackerEntry>,
    trace: &'a Vec<Vec<&'a Vec<M31>>>,
    pub column_index_per_interaction: Vec<usize>,
    pub vec_row: usize,
    pub domain_log_size: u32,
    logup: LogupAtRow<QM31>,
}

impl<'a> RelationTrackerEvaluator<'a> {
    /// The tracker before it was asked anything.
    pub open spec fn spec_new(trace: Seq<Seq<Seq<M31>>>, row: usize, log_size: u32) -> TrackerModel {
        TrackerModel {
            entries: Seq::empty(),
            trace,
            column_index: Seq::new(trace.len(), |t: int| 0usize),
            row,
            log_size,
            logup: LogupModel {
                interaction: 100,
                cumsum_shift: QM31::spec_one(),
                fracs: Seq::empty(),
                is_finalized: true,
                log_size: 10,
            },
        }
    }

    pub fn new(trace: &'a Vec<Vec<&'a Vec<M31>>>, row: usize, domain_log_size: u32) -> (r:
        RelationTrackerEvaluator<'a>)
        ensures
            r.model() == Self::spec_new(spec_columns_view(trace@), row, domain_log_size),
    {
        let mut column_index: Vec<usize> = Vec::with_capacity(trace.len());
        let mut t: usize = 0;
        while t < trace.len()
            invariant
                t <= trace.len(),
                column_index.len() == t,
                forall|k: int| 0 <= k < t ==> column_index[k] == 0,
            decreases trace.len() - t,
        {
            column_index.push(0);
            t = t + 1;
        }
        let r = RelationTrackerEvaluator {
            entries: Vec::new(),
            trace,
            column_index_per_interaction: column_index,
            vec_row: row,
            domain_log_size,
            logup: LogupAtRow::dummy(),
        };
        proof {
            assert(r.model().entries =~= Seq::empty());
            assert(r.model().column_index =~= Seq::new(
                spec_columns_view(trace@).len(),
                |t: int| 0usize,
            ));
        }
        r
    }

    /// The entries that were noted.
    pub fn entries(self) -> (r: Vec<RelationTrackerEntry>)
        ensures
            spec_entries(r@) == self.model().entries,
    {
        self.entries
    }

    /// Reads the next column of the tree at the offsets from the row.
    fn read(&mut self, interaction: usize, offsets: &Vec<isize>) -> (r: Vec<M31>)
        ensures
            (final(self).model(), r@) == spec_read_row(old(self).model(), interaction, offsets@),
            r.len() == offsets.len(),
    {
        let ghost m = self.model();
        let mut out: Vec<M31> = Vec::with_capacity(offsets.len());
        if 1 <= self.domain_log_size && self.domain_log_size <= 30 && interaction
            < self.trace.len() && interaction < self.column_index_per_interaction.len() {
            let size = pow2_usize(self.domain_log_size);
            let col = self.column_index_per_interaction[interaction];
            if self.vec_row < size && col < self.trace[interaction].len()
                && self.trace[interaction][col].len() == size {
                let column = self.trace[interaction][col];
                assert(m.trace[interaction as int][col as int] == column@);
                assert(spec_can_read(m, interaction));
                let mut k: usize = 0;
                while k < offsets.len()
                    invariant
                        k <= offsets.len(),
                        out.len() == k,
                        m == self.model(),
                        spec_can_read(m, interaction),
                        column.len() == pow2(m.log_size as nat),
                        forall|j: int| 0 <= j < k ==> out[j] == spec_value_at(m, column@, offsets[j]),
                    decreases offsets.len() - k,
                {
                    let value = if offsets[k] == 0 {
                        column[self.vec_row]
                    } else {
                        column[offset_row(self.vec_row, self.domain_log_size, offsets[k])]
                    };
                    out.push(value);
                    k = k + 1;
                }
                if col < usize::MAX {
                    self.column_index_per_interaction.set(interaction, col + 1);
                }
                proof {
                    assert(out@ =~= spec_read_row(m, interaction, offsets@).1);
                    assert(self.model().column_index =~= spec_read_row(
                        m,
                        interaction,
                        offsets@,
                    ).0.column_index);
                }
                return out;
            }
        }
        proof {
            assert(!spec_can_read(m, interaction)) by {
                if spec_can_read(m, interaction) {
                    let col = m.column_index[interaction as int];
                    assert(m.trace[interaction as int][col as int]
                        == self.trace[interaction as int][col as int]@);
                }
            }
        }
        let mut k: usize = 0;
        while k < offsets.len()
            invariant
                k <= offsets.len(),
                out.len() == k,
                forall|j: int| 0 <= j < k ==> out[j] == M31::spec_zero(),
            decreases offsets.len() - k,
        {
            out.push(M31::zero());
            k = k + 1;
        }
        proof {
            assert(out@ =~= spec_read_row(m, interaction, offsets@).1);
        }
        out
    }
}

impl<'a> EvalAtRow for RelationTrackerEvaluator<'a> {
    type F = M31;

    type EF = QM31;

    type Model = TrackerModel;

    closed spec fn model(&self) -> TrackerModel {
        TrackerModel {
            entries: spec_entries(self.entries@),
            trace: spec_columns_view(self.trace@),
            column_index: self.column_index_per_interaction@,
            row: self.vec_row,
            log_size: self.domain_log_size,
            logup: self.logup.model(),
        }
    }

    open spec fn spec_base(v: M31) -> M31 {
        v
    }

    open spec fn spec_secure(v: QM31) -> QM31 {
        v
    }

    open spec fn spec_embed(v: M31) -> QM31 {
        QM31::spec_from_m31(v)
    }

    open spec fn spec_ef_add(a: QM31, b: QM31) -> QM31 {
        a.spec_add(b)
    }

    open spec fn spec_ef_sub(a: QM31, b: QM31) -> QM31 {
        a.spec_sub(b)
    }

    open spec fn spec_ef_mul(a: QM31, b: QM31) -> QM31 {
        a.spec_mul(b)
    }

    /// The tracker has no use for the columns of the cumulative sums: what
    /// is combined of them is zero.
    open spec fn spec_combine_ef(values: Seq<M31>) -> QM31 {
        QM31::spec_zero()
    }

    open spec fn spec_next_interaction_mask(m: TrackerModel, interaction: usize, offsets: Seq<isize>) -> (
        TrackerModel,
        Seq<M31>,
    ) {
        spec_read_row(m, interaction, offsets)
    }

    open spec fn spec_get_preprocessed_column(m: TrackerModel, id: Seq<char>) -> (TrackerModel, M31) {
        let (after, values) = spec_read_row(m, PREPROCESSED_TRACE_IDX, seq![0isize]);
        (after, values[0])
    }

    /// Nothing is constrained.
    open spec fn spec_add_constraint(m: TrackerModel, constraint: QM31) -> TrackerModel {
        m
    }

    open spec fn spec_logup(m: TrackerModel) -> LogupModel<QM31> {
        m.logup
    }

    open spec fn spec_write_logup_frac(m: TrackerModel, fraction: Fraction<QM31, QM31>) -> TrackerModel {
        TrackerModel { logup: spec_write_frac(m.logup, fraction), ..m }
    }

    /// The entry is kept, with the first coordinate of its multiplicity.
    open spec fn spec_note_relation(
        m: TrackerModel,
        name: Seq<char>,
        multiplicity: QM31,
        values: Seq<M31>,
    ) -> TrackerModel {
        TrackerModel {
            entries: m.entries.push(
                EntryModel { relation: name, mult: multiplicity.spec_to_m31_array()[0], values },
            ),
            ..m
        }
    }

    open spec fn spec_close_logup(m: TrackerModel) -> TrackerModel {
        TrackerModel { logup: LogupModel { is_finalized: true, ..m.logup }, ..m }
    }

    proof fn lemma_logup_kept(
        m: TrackerModel,
        interaction: usize,
        offsets: Seq<isize>,
        id: Seq<char>,
        constraint: QM31,
        values: Seq<M31>,
    ) {
    }

    proof fn lemma_logup_written(m: TrackerModel, fraction: Fraction<QM31, QM31>) {
    }

    fn base(v: M31) -> (r: M31) {
        v
    }

    fn secure(v: QM31) -> (r: QM31) {
        v
    }

    fn embed(v: M31) -> (r: QM31) {
        QM31::from_base(v)
    }

    fn ef_add(a: QM31, b: QM31) -> (r: QM31) {
        a.add(b)
    }

    fn ef_sub(a: QM31, b: QM31) -> (r: QM31) {
        a.sub(b)
    }

    fn ef_mul(a: QM31, b: QM31) -> (r: QM31) {
        a.mul(b)
    }

    fn combine_ef(values: [M31; 4]) -> (r: QM31) {
        QM31::zero()
    }

    fn next_interaction_mask(&mut self, interaction: usize, offsets: &Vec<isize>) -> (r: Vec<M31>) {
        self.read(interaction, offsets)
    }

    fn get_preprocessed_column(&mut self, column: PreProcessedColumnId) -> (r: M31) {
        let mut offsets: Vec<isize> = Vec::new();
        offsets.push(0);
        proof {
            assert(offsets@ =~= seq![0isize]);
        }
        let values = self.read(PREPROCESSED_TRACE_IDX, &offsets);
        values[0]
    }

    fn add_constraint(&mut self, constraint: QM31) {
    }

    fn logup_fracs(&self) -> (r: Vec<Fraction<QM31, QM31>>) {
        copy_vec(&self.logup.fracs)
    }

    fn logup_interaction(&self) -> (r: usize) {
        self.logup.interaction
    }

    fn logup_shift(&self) -> (r: QM31) {
        self.logup.cumsum_shift
    }

    fn write_logup_frac(&mut self, fraction: Fraction<QM31, QM31>) {
        if self.logup.fracs.len() == 0 {
            self.logup.is_finalized = false;
        }
        self.logup.fracs.push(fraction);
    }

    fn note_relation(&mut self, name: &String, multiplicity: QM31, values: &Vec<M31>) {
        let ghost before = spec_entries(self.entries@);
        let coordinates = multiplicity.to_m31_array();
        self.entries.push(
            RelationTrackerEntry {
                relation: name.clone(),
                mult: coordinates[0],
                values: copy_vec(values),
            },
        );
        proof {
            assert(spec_entries(self.entries@) =~= before.push(
                EntryModel {
                    relation: name@,
                    mult: multiplicity.spec_to_m31_array()[0],
                    values: values@,
                },
            ));
        }
    }

    fn close_logup(&mut self) {
        self.logup.is_finalized = true;
    }
}

} // verus!

verus! {

/// Whether the trace holds the columns of the component in the tree of the
/// preprocessed columns and in that of the original ones.
pub open spec fn spec_trace_holds<C: FrameworkEval>(
    component: FrameworkComponent<C>,
    trace: Seq<Vec<&Vec<M31>>>,
) -> bool {
    let locations = component.spec_locations();
    let preprocessed = component.spec_preprocessed();
    &&& locations.len() >= 2
    &&& trace.len() >= 2
    &&& forall|t: int|
        0 <= t < 2 ==> (#[trigger] locations[t]).col_start <= locations[t].col_end
            <= trace[t].len()
    &&& forall|i: int| 0 <= i < preprocessed.len() ==> (#[trigger] preprocessed[i]) < trace[0].len()
}

/// The columns of the component: the preprocessed columns that it names,
/// in the order in which it names them, and the columns of its span in
/// the tree of the original columns.
pub open spec fn spec_sub_tree<C: FrameworkEval>(
    component: FrameworkComponent<C>,
    trace: Seq<Vec<&Vec<M31>>>,
) -> Seq<Seq<Seq<M31>>> {
    let span = component.spec_locations()[1];
    let preprocessed = component.spec_preprocessed();
    seq![
        Seq::new(preprocessed.len(), |i: int| trace[0][preprocessed[i] as int]@),
        Seq::new((span.col_end - span.col_start) as nat, |c: int| trace[1][span.col_start + c]@),
    ]
}

/// The entries that the declaration notes at the row.
pub open spec fn spec_row_entries<C: FrameworkEval>(
    eval: C,
    sub_tree: Seq<Seq<Seq<M31>>>,
    row: usize,
    log_size: u32,
) -> Seq<EntryModel> {
    eval.spec_evaluate::<RelationTrackerEvaluator>(
        RelationTrackerEvaluator::spec_new(sub_tree, row, log_size),
    ).entries
}

/// The entries that the declaration notes at the first `n` rows, row by
/// row.
pub open spec fn spec_all_entries<C: FrameworkEval>(
    eval: C,
    sub_tree: Seq<Seq<Seq<M31>>>,
    log_size: u32,
    n: nat,
) -> Seq<EntryModel>
    decreases n,
{
    if n == 0 {
        Seq::empty()
    } else {
        spec_all_entries(eval, sub_tree, log_size, (n - 1) as nat) + spec_row_entries(
            eval,
            sub_tree,
            (n - 1) as usize,
            log_size,
        )
    }
}

/// Whether the trace holds the columns of the component.
pub fn trace_holds<C: FrameworkEval>(
    component: &FrameworkComponent<C>,
    trace: &Vec<Vec<&Vec<M31>>>,
) -> (r: bool)
    ensures
        r == spec_trace_holds(*component, trace@),
{
    let locations = component.trace_locations();
    let preprocessed = component.preprocessed_indices();
    if locations.len() < 2 || trace.len() < 2 {
        return false;
    }
    let mut t: usize = 0;
    while t < 2
        invariant
            t <= 2,
            locations.len() >= 2,
            trace.len() >= 2,
            locations@ == component.spec_locations(),
            forall|k: int|
                0 <= k < t ==> (#[trigger] locations[k]).col_start <= locations[k].col_end
                    <= trace[k].len(),
        decreases 2 - t,
    {
        if locations[t].col_start > locations[t].col_end || locations[t].col_end > trace[t].len() {
            assert(!((#[trigger] locations[t as int]).col_start <= locations[t as int].col_end
                <= trace[t as int].len()));
            return false;
        }
        t = t + 1;
    }
    let mut i: usize = 0;
    while i < preprocessed.len()
        invariant
            i <= preprocessed.len(),
            trace.len() >= 2,
            preprocessed@ == component.spec_preprocessed(),
            forall|k: int| 0 <= k < i ==> (#[trigger] preprocessed[k]) < trace[0].len(),
        decreases preprocessed.len() - i,
    {
        if preprocessed[i] >= trace[0].len() {
            assert(!((#[trigger] preprocessed[i as int]) < trace[0].len()));
            return false;
        }
        i = i + 1;
    }
    true
}

/// The entries of the relations that the component notes on the rows of
/// the trace, row by row. The tree of the cumulative sums is not read.
pub fn add_to_relation_entries<C: FrameworkEval>(
    component: &FrameworkComponent<C>,
    trace: &Vec<Vec<&Vec<M31>>>,
) -> (r: Vec<RelationTrackerEntry>)
    requires
        spec_trace_holds(*component, trace@),
    ensures
        spec_entries(r@) == spec_all_entries(
            component.spec_eval(),
            spec_sub_tree(*component, trace@),
            component.spec_eval().spec_log_size(),
            pow2(component.spec_eval().spec_log_size() as nat),
        ),
{
    let log_size = component.log_size();
    let locations = component.trace_locations();
    let indices = component.preprocessed_indices();
    let ghost want = spec_sub_tree(*component, trace@);
    let mut preprocessed: Vec<&Vec<M31>> = Vec::with_capacity(indices.len());
    let mut i: usize = 0;
    while i < indices.len()
        invariant
            i <= indices.len(),
            spec_trace_holds(*component, trace@),
            indices@ == component.spec_preprocessed(),
            preprocessed.len() == i,
            forall|k: int| 0 <= k < i ==> (#[trigger] preprocessed[k])@ == trace[0][indices[k] as int]@,
        decreases indices.len() - i,
    {
        assert(indices[i as int] < trace[0].len());
        preprocessed.push(trace[0][indices[i]]);
        i = i + 1;
    }
    let span = locations[1];
    assert(span.col_start <= span.col_end <= trace[1].len());
    let mut original: Vec<&Vec<M31>> = Vec::with_capacity(span.col_end - span.col_start);
    let mut c: usize = span.col_start;
    while c < span.col_end
        invariant
            span.col_start <= c <= span.col_end <= trace[1].len(),
            trace.len() >= 2,
            original.len() == c - span.col_start,
            forall|k: int|
                0 <= k < original.len() ==> (#[trigger] original[k])@ == trace[1][span.col_start + k]@,
        decreases span.col_end - c,
    {
        original.push(trace[1][c]);
        c = c + 1;
    }
    let mut sub_tree: Vec<Vec<&Vec<M31>>> = Vec::with_capacity(2);
    sub_tree.push(preprocessed);
    sub_tree.push(original);
    proof {
        assert(spec_columns_view(sub_tree@)[0] =~= want[0]);
        assert(spec_columns_view(sub_tree@)[1] =~= want[1]);
        assert(spec_columns_view(sub_tree@) =~= want);
    }
    let size = pow2_usize(log_size);
    let mut out: Vec<RelationTrackerEntry> = Vec::new();
    let mut row: usize = 0;
    proof {
        assert(spec_entries(out@) =~= Seq::empty());
    }
    while row < size
        invariant
            row <= size,
            size == pow2(log_size as nat),
            log_size == component.spec_eval().spec_log_size(),
            spec_columns_view(sub_tree@) == want,
            spec_entries(out@) == spec_all_entries(
                component.spec_eval(),
                want,
                log_size,
                row as nat,
            ),
        decreases size - row,
    {
        let evaluator = RelationTrackerEvaluator::new(&sub_tree, row, log_size);
        let done = component.eval().evaluate(evaluator);
        let mut noted = done.entries();
        let ghost before = out@;
        let ghost added = noted@;
        out.append(&mut noted);
        proof {
            assert(spec_entries(out@) =~= spec_entries(before) + spec_entries(added));
        }
        row = row + 1;
    }
    out
}

} // verus!
