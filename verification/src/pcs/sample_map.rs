//! The map that groups samples by their point, in the order in which the
//! points first occur.

use vstd::prelude::*;

verus! {

/// The eight coordinates of a point of the circle over the extension field.
pub type PointKey = (u32, u32, u32, u32, u32, u32, u32, u32);

/// The index of a column and the four coordinates of its value at a point.
pub type SampleItem = (usize, u32, u32, u32, u32);

#[verifier::external_type_specification]
#[verifier::external_body]
pub struct ExFnvHasher(fnv::FnvHasher);

#[verifier::external_type_specification]
#[verifier::external_body]
#[verifier::reject_recursive_types(H)]
pub struct ExBuildHasherDefault<H>(std::hash::BuildHasherDefault<H>);

#[verifier::external_type_specification]
#[verifier::external_body]
#[verifier::reject_recursive_types(K)]
#[verifier::reject_recursive_types(V)]
#[verifier::reject_recursive_types(S)]
pub struct ExIndexMap<K, V, S>(indexmap::IndexMap<K, V, S>);

/// The entries of the map in the order in which their keys were first
/// inserted, each key with the items that were pushed under it.
pub uninterp spec fn sample_map_entries(
    m: indexmap::IndexMap<
        PointKey,
        Vec<SampleItem>,
        std::hash::BuildHasherDefault<fnv::FnvHasher>,
    >,
) -> Seq<(PointKey, Seq<SampleItem>)>;

/// The first entry with the key `key`, if there is one.
pub open spec fn spec_find(entries: Seq<(PointKey, Seq<SampleItem>)>, key: PointKey) -> Option<int> {
    if exists|i: int| 0 <= i < entries.len() && entries[i].0 == key {
        Some(choose|i: int| 0 <= i < entries.len() && entries[i].0 == key)
    } else {
        None
    }
}

/// The entries after `item` was pushed under `key`: at the end of the items
/// of the key where it has an entry, in a new last entry where it has none.
pub open spec fn spec_push_sample(
    entries: Seq<(PointKey, Seq<SampleItem>)>,
    key: PointKey,
    item: SampleItem,
) -> Seq<(PointKey, Seq<SampleItem>)> {
    match spec_find(entries, key) {
        Some(i) => entries.update(i, (key, entries[i].1.push(item))),
        None => entries.push((key, seq![item])),
    }
}

/// `indexmap::IndexMap::default`: a map without entries.
#[verifier::external_body]
pub(crate) fn sample_map_new() -> (m: indexmap::IndexMap<
    PointKey,
    Vec<SampleItem>,
    std::hash::BuildHasherDefault<fnv::FnvHasher>,
>)
    ensures
        sample_map_entries(m) == Seq::<(PointKey, Seq<SampleItem>)>::empty(),
{
    indexmap::IndexMap::default()
}

/// `indexmap::IndexMap::entry` with `or_insert_with`: the items of `key`,
/// which get a new last entry where the key has none, take `item` at their
/// end; the other entries and the order of the keys stay as they are.
#[verifier::external_body]
pub(crate) fn sample_map_push(
    m: &mut indexmap::IndexMap<
        PointKey,
        Vec<SampleItem>,
        std::hash::BuildHasherDefault<fnv::FnvHasher>,
    >,
    key: PointKey,
    item: SampleItem,
)
    ensures
        sample_map_entries(*final(m)) == spec_push_sample(sample_map_entries(*old(m)), key, item),
{
    m.entry(key).or_insert_with(Vec::new).push(item);
}

/// `indexmap::IndexMap::into_iter`: the entries in the order of insertion.
#[verifier::external_body]
pub(crate) fn sample_map_into_entries(
    m: indexmap::IndexMap<
        PointKey,
        Vec<SampleItem>,
        std::hash::BuildHasherDefault<fnv::FnvHasher>,
    >,
) -> (r: Vec<(PointKey, Vec<SampleItem>)>)
    ensures
        r.len() == sample_map_entries(m).len(),
        forall|i: int|
            0 <= i < r.len() ==> (#[trigger] r[i]).0 == sample_map_entries(m)[i].0 && r[i].1@
                == sample_map_entries(m)[i].1,
{
    m.into_iter().collect()
}

} // verus!
