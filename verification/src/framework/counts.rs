//! The number of uses of each relation, by the name of the relation.

use vstd::prelude::*;

verus! {

/// The uses of each relation, kept in a `hashbrown::HashMap` from the name
/// of the relation to the number of its uses.
#[verifier::external_body]
pub struct RelationCounts {
    map: hashbrown::HashMap<String, usize>,
}

/// The number of uses that the map holds for each name.
pub uninterp spec fn relation_counts(counts: RelationCounts) -> Map<Seq<char>, usize>;

/// No uses of any relation.
pub open spec fn spec_no_counts() -> Map<Seq<char>, usize> {
    Map::empty()
}

/// Whether the pairs are the entries of the map, each once, in some order.
pub open spec fn spec_entries_of(entries: Seq<(String, usize)>, counts: Map<Seq<char>, usize>) -> bool {
    &&& forall|i: int|
        0 <= i < entries.len() ==> counts.contains_key((#[trigger] entries[i]).0@)
            && counts[entries[i].0@] == entries[i].1
    &&& forall|i: int, j: int|
        0 <= i < j < entries.len() ==> (#[trigger] entries[i]).0@ != (#[trigger] entries[j]).0@
    &&& forall|name: Seq<char>| #[trigger]
        counts.contains_key(name) ==> exists|i: int|
            0 <= i < entries.len() && (#[trigger] entries[i]).0@ == name
}

/// `hashbrown::HashMap::new`: the map that it gives holds nothing.
#[verifier::external_body]
fn counts_new() -> (r: RelationCounts)
    ensures
        relation_counts(r) == spec_no_counts(),
{
    RelationCounts { map: hashbrown::HashMap::new() }
}

/// `hashbrown::HashMap::get`: the value that the map holds for the key, if
/// it holds the key.
#[verifier::external_body]
fn counts_get(counts: &RelationCounts, name: &String) -> (r: Option<usize>)
    ensures
        r == (if relation_counts(*counts).contains_key(name@) {
            Some(relation_counts(*counts)[name@])
        } else {
            None
        }),
{
    counts.map.get(name).copied()
}

/// `hashbrown::HashMap::insert`: afterwards the map holds the value for the
/// key, in place of the one that it held, and everything else as before.
#[verifier::external_body]
fn counts_insert(counts: &mut RelationCounts, name: String, value: usize)
    ensures
        relation_counts(*final(counts)) == relation_counts(*old(counts)).insert(name@, value),
{
    counts.map.insert(name, value);
}

/// `hashbrown::HashMap::iter`: it hands out every entry of the map once;
/// nothing is said of the order.
#[verifier::external_body]
fn counts_entries(counts: &RelationCounts) -> (r: Vec<(String, usize)>)
    ensures
        spec_entries_of(r@, relation_counts(*counts)),
{
    counts.map.iter().map(|(name, count)| (name.clone(), *count)).collect()
}

impl RelationCounts {
    /// The uses of each relation.
    pub open spec fn spec_counts(self) -> Map<Seq<char>, usize> {
        relation_counts(self)
    }

    /// No uses of any relation.
    pub fn new() -> (r: RelationCounts)
        ensures
            r.spec_counts() == spec_no_counts(),
    {
        counts_new()
    }

    /// The number of uses of the relation, if it was used.
    pub fn get(&self, name: &String) -> (r: Option<usize>)
        ensures
            r == (if self.spec_counts().contains_key(name@) {
                Some(self.spec_counts()[name@])
            } else {
                None
            }),
    {
        counts_get(self, name)
    }

    /// Sets the number of uses of the relation.
    pub fn insert(&mut self, name: String, value: usize)
        ensures
            final(self).spec_counts() == old(self).spec_counts().insert(name@, value),
    {
        counts_insert(self, name, value)
    }

    /// The relations with the number of their uses, each once, in no
    /// order that one could rely on.
    pub fn entries(&self) -> (r: Vec<(String, usize)>)
        ensures
            spec_entries_of(r@, self.spec_counts()),
    {
        counts_entries(self)
    }
}

/// One more, as far as the type goes.
pub open spec fn spec_one_more(n: usize) -> usize {
    if n < usize::MAX {
        (n + 1) as usize
    } else {
        n
    }
}

/// The counts after one more use of the relation.
pub open spec fn spec_count_use(counts: Map<Seq<char>, usize>, name: Seq<char>) -> Map<
    Seq<char>,
    usize,
> {
    if counts.contains_key(name) {
        counts.insert(name, spec_one_more(counts[name]))
    } else {
        counts.insert(name, 1usize)
    }
}

/// Counts one more use of the relation.
pub fn count_use(counts: &mut RelationCounts, name: &String)
    ensures
        final(counts).spec_counts() == spec_count_use(old(counts).spec_counts(), name@),
{
    let more = match counts.get(name) {
        Some(count) => if count < usize::MAX {
            count + 1
        } else {
            count
        },
        None => 1,
    };
    counts.insert(name.clone(), more);
}

/// Every count multiplied by `size`.
pub open spec fn spec_scaled(counts: Map<Seq<char>, usize>, size: nat) -> Map<Seq<char>, usize> {
    Map::new(|name: Seq<char>| counts.contains_key(name), |name: Seq<char>| (counts[name] * size) as usize)
}

/// Whether every count, multiplied by `size`, fits a `usize`.
pub open spec fn spec_scales(counts: Map<Seq<char>, usize>, size: nat) -> bool {
    forall|name: Seq<char>| #[trigger]
        counts.contains_key(name) ==> counts[name] * size <= usize::MAX
}

/// The counts with every one of them multiplied by `size`, if each product
/// fits a `usize`.
pub fn scaled(counts: &RelationCounts, size: usize) -> (r: Option<RelationCounts>)
    ensures
        r.is_some() == spec_scales(counts.spec_counts(), size as nat),
        match r {
            Some(out) => out.spec_counts() == spec_scaled(counts.spec_counts(), size as nat),
            None => true,
        },
{
    let entries = counts.entries();
    let ghost from = counts.spec_counts();
    let mut out = RelationCounts::new();
    let mut i: usize = 0;
    while i < entries.len()
        invariant
            i <= entries.len(),
            from == counts.spec_counts(),
            spec_entries_of(entries@, from),
            forall|j: int| 0 <= j < i ==> from[(#[trigger] entries[j]).0@] * size <= usize::MAX,
            forall|name: Seq<char>| #[trigger]
                out.spec_counts().contains_key(name) <==> exists|j: int|
                    0 <= j < i && (#[trigger] entries[j]).0@ == name,
            forall|name: Seq<char>| #[trigger]
                out.spec_counts().contains_key(name) ==> out.spec_counts()[name] == (from[name]
                    * size) as usize,
        decreases entries.len() - i,
    {
        let count = entries[i].1;
        assert(from.contains_key(entries[i as int].0@) && from[entries[i as int].0@] == count);
        if size != 0 && count > usize::MAX / size {
            proof {
                assert(count * size > usize::MAX) by (nonlinear_arith)
                    requires
                        size > 0,
                        count > usize::MAX / size,
                ;
            }
            return None;
        }
        proof {
            assert(count * size <= usize::MAX) by (nonlinear_arith)
                requires
                    size == 0 || count <= usize::MAX / size,
            ;
        }
        let ghost before = out.spec_counts();
        out.insert(entries[i].0.clone(), count * size);
        proof {
            let name = entries[i as int].0@;
            assert forall|other: Seq<char>| #[trigger]
                out.spec_counts().contains_key(other) <==> exists|j: int|
                    0 <= j < i + 1 && (#[trigger] entries[j]).0@ == other by {
                if other == name {
                    assert(entries[i as int].0@ == other);
                } else if before.contains_key(other) {
                    let j = choose|j: int| 0 <= j < i && (#[trigger] entries[j]).0@ == other;
                    assert(0 <= j < i + 1 && entries[j].0@ == other);
                }
            }
        }
        i = i + 1;
    }
    proof {
        assert forall|name: Seq<char>| #[trigger] from.contains_key(name) implies from[name] * size
            <= usize::MAX && out.spec_counts().contains_key(name) by {
            let j = choose|j: int| 0 <= j < entries.len() && (#[trigger] entries[j]).0@ == name;
            assert(from[entries[j].0@] * size <= usize::MAX);
        }
        assert(out.spec_counts() =~= spec_scaled(from, size as nat));
    }
    Some(out)
}

} // verus!
