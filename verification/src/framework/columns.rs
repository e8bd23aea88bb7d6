//! Where the columns of a component lie: the span of columns that it owns in
//! each tree, and the preprocessed columns, which are shared and known by
//! their identifiers.

use vstd::prelude::*;

verus! {

/// The identifier of a preprocessed column. Identifiers are unique in a
/// given context.
#[derive(Debug, Clone, PartialEq, Eq, Hash)]
pub struct PreProcessedColumnId {
    pub id: String,
}

impl PreProcessedColumnId {
    /// Whether the two identifiers are the same.
    pub fn same(&self, other: &PreProcessedColumnId) -> (r: bool)
        ensures
            r == (self.id@ == other.id@),
    {
        self.id == other.id
    }

    /// A copy of the identifier.
    pub fn duplicate(&self) -> (r: PreProcessedColumnId)
        ensures
            r.id@ == self.id@,
    {
        PreProcessedColumnId { id: self.id.clone() }
    }
}

/// The identifiers of the columns.
pub open spec fn spec_ids(columns: Seq<PreProcessedColumnId>) -> Seq<Seq<char>> {
    Seq::new(columns.len(), |i: int| columns[i].id@)
}

/// No identifier occurs twice.
pub open spec fn spec_all_unique(ids: Seq<Seq<char>>) -> bool {
    forall|i: int, j: int| 0 <= i < j < ids.len() ==> ids[i] != ids[j]
}

/// The number of times that `id` occurs among the first `n` identifiers.
pub open spec fn spec_occurrences(ids: Seq<Seq<char>>, id: Seq<char>, n: nat) -> nat
    decreases n,
{
    if n == 0 || n > ids.len() {
        0
    } else {
        spec_occurrences(ids, id, (n - 1) as nat) + if ids[n - 1] == id {
            1nat
        } else {
            0nat
        }
    }
}

/// The one is a rearrangement of the other: every identifier occurs as
/// often in the one as in the other.
pub open spec fn spec_is_permutation(a: Seq<Seq<char>>, b: Seq<Seq<char>>) -> bool {
    forall|id: Seq<char>| spec_occurrences(a, id, a.len()) == spec_occurrences(b, id, b.len())
}

/// An identifier that does not occur among the first `n` occurs zero times
/// there, and one that occurs, at least once.
pub proof fn lemma_occurrences(ids: Seq<Seq<char>>, id: Seq<char>, n: nat)
    requires
        n <= ids.len(),
    ensures
        (forall|k: int| 0 <= k < n ==> ids[k] != id) <==> spec_occurrences(ids, id, n) == 0,
    decreases n,
{
    if n > 0 {
        lemma_occurrences(ids, id, (n - 1) as nat);
        if spec_occurrences(ids, id, n) == 0 {
            assert forall|k: int| 0 <= k < n implies ids[k] != id by {
                if k < n - 1 {
                } else {
                }
            }
        } else {
            if ids[n - 1] == id {
            } else {
                let k = choose|k: int| 0 <= k < n - 1 && ids[k] == id;
                assert(ids[k] == id);
            }
        }
    }
}

/// The first position from `from` on at which the identifier stands, if
/// it is there.
pub open spec fn spec_position(ids: Seq<Seq<char>>, id: Seq<char>, from: nat) -> Option<nat>
    decreases ids.len() - from,
{
    if from >= ids.len() {
        None
    } else if ids[from as int] == id {
        Some(from)
    } else {
        spec_position(ids, id, from + 1)
    }
}

/// The index of a column and the columns thereafter: a column that is
/// known keeps its index; one that is not joins at the end, unless the
/// columns are fixed, in which case it has no index.
pub open spec fn spec_index_of(columns: Seq<Seq<char>>, is_static: bool, id: Seq<char>) -> Option<
    (usize, Seq<Seq<char>>),
> {
    match spec_position(columns, id, 0) {
        Some(p) => Some((p as usize, columns)),
        None => if is_static {
            None
        } else {
            Some((columns.len() as usize, columns.push(id)))
        },
    }
}

/// The columns after the first `n` identifiers were given their indices,
/// one after the other, and the indices; nothing if one of them has none.
pub open spec fn spec_assign(columns: Seq<Seq<char>>, is_static: bool, ids: Seq<Seq<char>>, n: nat) -> Option<
    (Seq<Seq<char>>, Seq<usize>),
>
    decreases n,
{
    if n == 0 {
        Some((columns, Seq::empty()))
    } else {
        match spec_assign(columns, is_static, ids, (n - 1) as nat) {
            None => None,
            Some((before, indices)) => match spec_index_of(before, is_static, ids[n - 1]) {
                None => None,
                Some((i, after)) => Some((after, indices.push(i))),
            },
        }
    }
}

/// The first position of the identifier among the columns, if it is there.
pub fn position(columns: &Vec<PreProcessedColumnId>, column: &PreProcessedColumnId) -> (r: Option<
    usize,
>)
    ensures
        match r {
            Some(i) => {
                &&& i < columns.len()
                &&& spec_position(spec_ids(columns@), column.id@, 0) == Some(i as nat)
            },
            None => spec_position(spec_ids(columns@), column.id@, 0).is_none(),
        },
{
    let ghost ids = spec_ids(columns@);
    let mut i: usize = 0;
    while i < columns.len()
        invariant
            i <= columns.len(),
            ids == spec_ids(columns@),
            spec_position(ids, column.id@, 0) == spec_position(ids, column.id@, i as nat),
        decreases columns.len() - i,
    {
        proof {
            assert(ids[i as int] == columns[i as int].id@);
        }
        if columns[i].same(column) {
            return Some(i);
        }
        i = i + 1;
    }
    None
}

/// Whether no identifier occurs twice among the columns.
pub fn all_unique(columns: &Vec<PreProcessedColumnId>) -> (r: bool)
    ensures
        r == spec_all_unique(spec_ids(columns@)),
{
    let mut j: usize = 0;
    while j < columns.len()
        invariant
            j <= columns.len(),
            forall|a: int, b: int| 0 <= a < b < j ==> columns[a].id@ != columns[b].id@,
        decreases columns.len() - j,
    {
        let mut i: usize = 0;
        while i < j
            invariant
                i <= j < columns.len(),
                forall|a: int| 0 <= a < i ==> columns[a].id@ != columns[j as int].id@,
            decreases j - i,
        {
            if columns[i].same(&columns[j]) {
                proof {
                    let ids = spec_ids(columns@);
                    assert(ids[i as int] == ids[j as int]);
                }
                return false;
            }
            i = i + 1;
        }
        j = j + 1;
    }
    proof {
        let ids = spec_ids(columns@);
        assert forall|a: int, b: int| 0 <= a < b < ids.len() implies ids[a] != ids[b] by {
            assert(columns[a].id@ != columns[b].id@);
        }
    }
    true
}

/// How often the identifier occurs among the columns.
pub fn occurrences(columns: &Vec<PreProcessedColumnId>, column: &PreProcessedColumnId) -> (r: usize)
    ensures
        r == spec_occurrences(spec_ids(columns@), column.id@, columns.len() as nat),
{
    let ghost ids = spec_ids(columns@);
    let mut count: usize = 0;
    let mut i: usize = 0;
    while i < columns.len()
        invariant
            i <= columns.len(),
            count <= i,
            ids == spec_ids(columns@),
            count == spec_occurrences(ids, column.id@, i as nat),
        decreases columns.len() - i,
    {
        proof {
            assert(ids[i as int] == columns[i as int].id@);
        }
        if columns[i].same(column) {
            count = count + 1;
        }
        i = i + 1;
    }
    count
}

/// The span of columns, in one tree, that belongs to a component.
#[derive(Debug, Clone, Copy, PartialEq, Eq, Structural)]
pub struct TreeSubspan {
    pub tree_index: usize,
    pub col_start: usize,
    pub col_end: usize,
}

/// Whether the preprocessed columns may still grow.
#[derive(Debug, Clone, Copy, PartialEq, Eq, Structural)]
pub enum PreprocessedColumnsAllocationMode {
    /// A column that is not known yet is added.
    Dynamic,
    /// The columns were fixed up front.
    Static,
}

/// Hands out to each component, first come first served, its span of
/// columns in each tree, and keeps the list of the preprocessed columns.
#[derive(Debug)]
pub struct TraceLocationAllocator {
    /// For each tree, the first column that is still free.
    next_tree_offsets: Vec<usize>,
    /// The preprocessed columns, each at its index.
    preprocessed_columns: Vec<PreProcessedColumnId>,
    preprocessed_columns_allocation_mode: PreprocessedColumnsAllocationMode,
}

impl Default for TraceLocationAllocator {
    fn default() -> (r: TraceLocationAllocator)
        ensures
            r.spec_offsets() == Seq::<usize>::empty(),
            r.spec_columns() == Seq::<Seq<char>>::empty(),
            !r.spec_is_static(),
    {
        let r = TraceLocationAllocator {
            next_tree_offsets: Vec::new(),
            preprocessed_columns: Vec::new(),
            preprocessed_columns_allocation_mode: PreprocessedColumnsAllocationMode::Dynamic,
        };
        proof {
            assert(r.spec_columns() =~= Seq::<Seq<char>>::empty());
        }
        r
    }
}

impl TraceLocationAllocator {
    /// For each tree that was asked for so far, its first free column.
    pub closed spec fn spec_offsets(self) -> Seq<usize> {
        self.next_tree_offsets@
    }

    /// The identifiers of the preprocessed columns, in the order of their
    /// indices.
    pub closed spec fn spec_columns(self) -> Seq<Seq<char>> {
        spec_ids(self.preprocessed_columns@)
    }

    /// Whether the preprocessed columns were fixed up front.
    pub closed spec fn spec_is_static(self) -> bool {
        self.preprocessed_columns_allocation_mode == PreprocessedColumnsAllocationMode::Static
    }

    /// The first free column of the tree: zero for a tree that was not
    /// asked for yet.
    pub open spec fn spec_offset(self, tree: int) -> int {
        if 0 <= tree < self.spec_offsets().len() {
            self.spec_offsets()[tree] as int
        } else {
            0
        }
    }

    /// Whether the columns of the structure still fit behind those that
    /// were handed out.
    pub open spec fn spec_has_room(self, lens: Seq<nat>) -> bool {
        forall|t: int| 0 <= t < lens.len() ==> self.spec_offset(t) + lens[t] <= usize::MAX
    }

    /// Whether the columns of the structure still fit behind those that
    /// were handed out.
    pub fn has_room<T>(&self, structure: &Vec<Vec<T>>) -> (r: bool)
        ensures
            r == self.spec_has_room(spec_column_counts(structure@)),
    {
        let ghost lens = spec_column_counts(structure@);
        let mut t: usize = 0;
        while t < structure.len()
            invariant
                t <= structure.len(),
                lens == spec_column_counts(structure@),
                forall|k: int| 0 <= k < t ==> self.spec_offset(k) + lens[k] <= usize::MAX,
            decreases structure.len() - t,
        {
            let offset = if t < self.next_tree_offsets.len() {
                self.next_tree_offsets[t]
            } else {
                0
            };
            if structure[t].len() > usize::MAX - offset {
                proof {
                    assert(self.spec_offset(t as int) + lens[t as int] > usize::MAX);
                }
                return false;
            }
            t = t + 1;
        }
        true
    }

    /// Hands out the next span of each tree: as many columns as the
    /// structure has there, from the first free one on.
    pub fn next_for_structure<T>(&mut self, structure: &Vec<Vec<T>>) -> (r: Vec<TreeSubspan>)
        requires
            old(self).spec_has_room(spec_column_counts(structure@)),
        ensures
            r.len() == structure.len(),
            forall|t: int|
                0 <= t < structure.len() ==> #[trigger] r[t] == (TreeSubspan {
                    tree_index: t as usize,
                    col_start: old(self).spec_offset(t) as usize,
                    col_end: (old(self).spec_offset(t) + structure[t].len()) as usize,
                }),
            final(self).spec_offsets().len() == if structure.len() > old(self).spec_offsets().len() {
                structure.len() as nat
            } else {
                old(self).spec_offsets().len()
            },
            forall|t: int|
                0 <= t < structure.len() ==> #[trigger] final(self).spec_offset(t) == old(
                    self,
                ).spec_offset(t) + structure[t].len(),
            forall|t: int|
                structure.len() <= t ==> #[trigger] final(self).spec_offset(t) == old(
                    self,
                ).spec_offset(t),
            final(self).spec_columns() == old(self).spec_columns(),
            final(self).spec_is_static() == old(self).spec_is_static(),
    {
        let ghost lens = spec_column_counts(structure@);
        while self.next_tree_offsets.len() < structure.len()
            invariant
                self.next_tree_offsets.len() >= old(self).next_tree_offsets.len(),
                self.next_tree_offsets.len() <= structure.len()
                    || self.next_tree_offsets.len() == old(self).next_tree_offsets.len(),
                forall|t: int| #[trigger] self.spec_offset(t) == old(self).spec_offset(t),
                self.preprocessed_columns == old(self).preprocessed_columns,
                self.preprocessed_columns_allocation_mode == old(
                    self,
                ).preprocessed_columns_allocation_mode,
            decreases structure.len() - self.next_tree_offsets.len(),
        {
            let ghost before = *self;
            self.next_tree_offsets.push(0);
            proof {
                assert forall|t: int| #[trigger] self.spec_offset(t) == before.spec_offset(t) by {
                    if 0 <= t < before.next_tree_offsets.len() {
                        assert(self.next_tree_offsets[t] == before.next_tree_offsets[t]);
                    }
                }
            }
        }
        let ghost widened = *self;
        let mut spans: Vec<TreeSubspan> = Vec::with_capacity(structure.len());
        let mut t: usize = 0;
        while t < structure.len()
            invariant
                t <= structure.len(),
                structure.len() <= self.next_tree_offsets.len(),
                self.next_tree_offsets.len() == widened.next_tree_offsets.len(),
                lens == spec_column_counts(structure@),
                old(self).spec_has_room(lens),
                forall|k: int| #[trigger] widened.spec_offset(k) == old(self).spec_offset(k),
                spans.len() == t,
                forall|k: int|
                    0 <= k < t ==> #[trigger] spans[k] == (TreeSubspan {
                        tree_index: k as usize,
                        col_start: old(self).spec_offset(k) as usize,
                        col_end: (old(self).spec_offset(k) + structure[k].len()) as usize,
                    }),
                forall|k: int|
                    0 <= k < t ==> #[trigger] self.spec_offset(k) == old(self).spec_offset(k)
                        + structure[k].len(),
                forall|k: int| t <= k ==> #[trigger] self.spec_offset(k) == old(self).spec_offset(k),
                self.preprocessed_columns == old(self).preprocessed_columns,
                self.preprocessed_columns_allocation_mode == old(
                    self,
                ).preprocessed_columns_allocation_mode,
            decreases structure.len() - t,
        {
            let ghost before = *self;
            let col_start = self.next_tree_offsets[t];
            proof {
                assert(before.spec_offset(t as int) == col_start);
                assert(old(self).spec_offset(t as int) + lens[t as int] <= usize::MAX);
            }
            let col_end = col_start + structure[t].len();
            self.next_tree_offsets.set(t, col_end);
            spans.push(TreeSubspan { tree_index: t, col_start, col_end });
            proof {
                assert forall|k: int| 0 <= k < t + 1 implies #[trigger] self.spec_offset(k) == old(
                    self,
                ).spec_offset(k) + structure[k].len() by {
                    if k < t {
                        assert(self.next_tree_offsets[k] == before.next_tree_offsets[k]);
                        assert(before.spec_offset(k) == old(self).spec_offset(k) + structure[k].len());
                    }
                }
                assert forall|k: int| t + 1 <= k implies #[trigger] self.spec_offset(k) == old(
                    self,
                ).spec_offset(k) by {
                    if k < self.next_tree_offsets.len() {
                        assert(self.next_tree_offsets[k] == before.next_tree_offsets[k]);
                    }
                    assert(before.spec_offset(k) == old(self).spec_offset(k));
                }
            }
            t = t + 1;
        }
        spans
    }

    /// An allocator whose preprocessed columns are fixed up front.
    pub fn new_with_preproccessed_columns(preprocessed_columns: &Vec<PreProcessedColumnId>) -> (r:
        TraceLocationAllocator)
        requires
            spec_all_unique(spec_ids(preprocessed_columns@)),
        ensures
            r.spec_offsets() == Seq::<usize>::empty(),
            r.spec_columns() == spec_ids(preprocessed_columns@),
            r.spec_is_static(),
    {
        let mut columns: Vec<PreProcessedColumnId> = Vec::with_capacity(preprocessed_columns.len());
        let mut i: usize = 0;
        while i < preprocessed_columns.len()
            invariant
                i <= preprocessed_columns.len(),
                columns.len() == i,
                forall|k: int| 0 <= k < i ==> columns[k].id@ == preprocessed_columns[k].id@,
            decreases preprocessed_columns.len() - i,
        {
            columns.push(preprocessed_columns[i].duplicate());
            i = i + 1;
        }
        proof {
            assert(spec_ids(columns@) =~= spec_ids(preprocessed_columns@));
        }
        TraceLocationAllocator {
            next_tree_offsets: Vec::new(),
            preprocessed_columns: columns,
            preprocessed_columns_allocation_mode: PreprocessedColumnsAllocationMode::Static,
        }
    }

    /// The preprocessed columns, each at its index.
    pub fn preprocessed_columns(&self) -> (r: &Vec<PreProcessedColumnId>)
        ensures
            spec_ids(r@) == self.spec_columns(),
    {
        &self.preprocessed_columns
    }

    /// Whether the preprocessed columns may not grow.
    pub fn is_static(&self) -> (r: bool)
        ensures
            r == self.spec_is_static(),
    {
        match self.preprocessed_columns_allocation_mode {
            PreprocessedColumnsAllocationMode::Static => true,
            PreprocessedColumnsAllocationMode::Dynamic => false,
        }
    }

    /// The index of the column: that of its first occurrence or, in the
    /// dynamic mode, that of a new column at the end. In the static mode a
    /// column that is not known has no index.
    pub fn index_of(&mut self, column: &PreProcessedColumnId) -> (r: Option<usize>)
        ensures
            final(self).spec_offsets() == old(self).spec_offsets(),
            final(self).spec_is_static() == old(self).spec_is_static(),
            match (r, spec_index_of(old(self).spec_columns(), old(self).spec_is_static(), column.id@)) {
                (Some(i), Some((p, columns))) => {
                    &&& i == p
                    &&& final(self).spec_columns() == columns
                    &&& i < columns.len()
                },
                (None, None) => final(self).spec_columns() == old(self).spec_columns(),
                _ => false,
            },
    {
        match position(&self.preprocessed_columns, column) {
            Some(i) => Some(i),
            None => {
                if self.is_static() {
                    None
                } else {
                    let next_column = self.preprocessed_columns.len();
                    self.preprocessed_columns.push(column.duplicate());
                    proof {
                        assert(self.spec_columns() =~= old(self).spec_columns().push(column.id@));
                    }
                    Some(next_column)
                }
            },
        }
    }

    /// Whether the columns of the allocator are a rearrangement of the
    /// given ones.
    pub fn validate_preprocessed_columns(&self, preprocessed_columns: &Vec<PreProcessedColumnId>) -> (r:
        bool)
        ensures
            r == spec_is_permutation(self.spec_columns(), spec_ids(preprocessed_columns@)),
    {
        let ghost a = spec_ids(self.preprocessed_columns@);
        let ghost b = spec_ids(preprocessed_columns@);
        let mut i: usize = 0;
        while i < self.preprocessed_columns.len()
            invariant
                i <= self.preprocessed_columns.len(),
                a == spec_ids(self.preprocessed_columns@),
                b == spec_ids(preprocessed_columns@),
                forall|k: int|
                    0 <= k < i ==> spec_occurrences(a, #[trigger] a[k], a.len()) == spec_occurrences(
                        b,
                        a[k],
                        b.len(),
                    ),
            decreases self.preprocessed_columns.len() - i,
        {
            let in_self = occurrences(&self.preprocessed_columns, &self.preprocessed_columns[i]);
            let in_other = occurrences(preprocessed_columns, &self.preprocessed_columns[i]);
            proof {
                assert(a[i as int] == self.preprocessed_columns[i as int].id@);
            }
            if in_self != in_other {
                return false;
            }
            i = i + 1;
        }
        let mut j: usize = 0;
        while j < preprocessed_columns.len()
            invariant
                j <= preprocessed_columns.len(),
                a == spec_ids(self.preprocessed_columns@),
                b == spec_ids(preprocessed_columns@),
                forall|k: int|
                    0 <= k < a.len() ==> spec_occurrences(a, #[trigger] a[k], a.len())
                        == spec_occurrences(b, a[k], b.len()),
                forall|k: int|
                    0 <= k < j ==> spec_occurrences(a, #[trigger] b[k], a.len()) == spec_occurrences(
                        b,
                        b[k],
                        b.len(),
                    ),
            decreases preprocessed_columns.len() - j,
        {
            let in_self = occurrences(&self.preprocessed_columns, &preprocessed_columns[j]);
            let in_other = occurrences(preprocessed_columns, &preprocessed_columns[j]);
            proof {
                assert(b[j as int] == preprocessed_columns[j as int].id@);
            }
            if in_self != in_other {
                return false;
            }
            j = j + 1;
        }
        proof {
            assert forall|id: Seq<char>|
                spec_occurrences(a, id, a.len()) == spec_occurrences(b, id, b.len()) by {
                lemma_occurrences(a, id, a.len());
                lemma_occurrences(b, id, b.len());
                if exists|k: int| 0 <= k < a.len() && a[k] == id {
                    let k = choose|k: int| 0 <= k < a.len() && a[k] == id;
                    assert(spec_occurrences(a, a[k], a.len()) == spec_occurrences(b, a[k], b.len()));
                } else if exists|k: int| 0 <= k < b.len() && b[k] == id {
                    let k = choose|k: int| 0 <= k < b.len() && b[k] == id;
                    assert(spec_occurrences(a, b[k], a.len()) == spec_occurrences(b, b[k], b.len()));
                } else {
                }
            }
        }
        true
    }
}

/// The number of columns of each tree of the structure.
pub open spec fn spec_column_counts<T>(structure: Seq<Vec<T>>) -> Seq<nat> {
    Seq::new(structure.len(), |t: int| structure[t].len() as nat)
}

} // verus!
