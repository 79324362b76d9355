//! Properties of an object past the number that its shape holds.
use vstd::prelude::*;

use crate::value::Attrs;

verus! {

/// Where a property of a dictionary is, and what it may be used for.
#[derive(Clone, Copy, PartialEq, Eq, Structural, Debug)]
pub struct DictEntry {
    /// Index of the value in the object's storage; unused by an accessor.
    pub slot: usize,
    /// Attributes.
    pub attrs: Attrs,
    /// Getter of an accessor.
    pub getter: Option<usize>,
    /// Setter of an accessor.
    pub setter: Option<usize>,
    /// Whether the property is an accessor.
    pub is_accessor: bool,
    /// Position in the order of insertion.
    pub seq: u64,
}

/// The hasher of `rustc_hash`, held as it is.
#[verifier::external_type_specification]
#[verifier::external_body]
pub struct ExFxBuildHasher(rustc_hash::FxBuildHasher);

/// `rustc_hash::FxHashMap::default`: a map without entries.
#[verifier::external_body]
pub(crate) fn map_new() -> (r: rustc_hash::FxHashMap<u128, DictEntry>)
    ensures
        r@.dom() == Set::<u128>::empty(),
{
    rustc_hash::FxHashMap::default()
}

/// `FxHashMap::get`: the entry of a key, copied.
#[verifier::external_body]
pub(crate) fn map_get(m: &rustc_hash::FxHashMap<u128, DictEntry>, k: u128) -> (r: Option<DictEntry>)
    ensures
        r == if m@.contains_key(k) {
            Some(m@[k])
        } else {
            None
        },
{
    m.get(&k).copied()
}

/// `FxHashMap::insert`: the entry takes the place of any other of its key.
#[verifier::external_body]
pub(crate) fn map_insert(m: &mut rustc_hash::FxHashMap<u128, DictEntry>, k: u128, e: DictEntry)
    ensures
        final(m)@ == old(m)@.insert(k, e),
{
    m.insert(k, e);
}

/// `FxHashMap::remove`: the entry of the key is gone.
#[verifier::external_body]
pub(crate) fn map_remove(m: &mut rustc_hash::FxHashMap<u128, DictEntry>, k: u128)
    ensures
        final(m)@ == old(m)@.remove(k),
{
    m.remove(&k);
}

/// `FxHashMap::iter`: every entry once, as its position and its key, in an order
/// that is not told.
#[verifier::external_body]
pub(crate) fn map_items(m: &rustc_hash::FxHashMap<u128, DictEntry>) -> (r: Vec<(u64, u128)>)
    ensures
        forall|i: int, j: int| 0 <= i < j < r@.len() ==> #[trigger] r@[i].1 != #[trigger] r@[j].1,
        forall|i: int|
            0 <= i < r@.len() ==> m@.contains_key(#[trigger] r@[i].1) && r@[i].0 == m@[r@[i].1].seq,
        forall|k: u128| m@.contains_key(k) ==> exists|i: int| 0 <= i < r@.len() && #[trigger] r@[i].1 == k,
{
    m.iter().map(|(k, e)| (e.seq, *k)).collect()
}

} // verus!
