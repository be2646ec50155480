use vstd::prelude::*;

use ic_stable_structures::memory_manager::{MemoryId, MemoryManager, VirtualMemory};
use ic_stable_structures::storable::Blob;
use ic_stable_structures::{Cell, DefaultMemoryImpl, StableBTreeMap};

verus! {

/// The durable memory, split into disjoint regions named by small tags.
///
/// The memory types of the stable-structures crate resolve to `Rc<RefCell<..>>` off-chain, which
/// Verus cannot take in a field, so the manager sits in an opaque struct.
#[verifier::external_body]
pub struct Regions {
    manager: MemoryManager<DefaultMemoryImpl>,
}

impl Regions {
    /// Relies on `MemoryManager::init` over the platform's default memory.
    #[verifier::external_body]
    pub(crate) fn new() -> Regions {
        Regions { manager: MemoryManager::init(DefaultMemoryImpl::default()) }
    }
}

/// A durable ordered map from identifier to encoded record, of at most 512 bytes each.
#[verifier::external_body]
pub struct Table {
    map: StableBTreeMap<u64, Blob<512>, VirtualMemory<DefaultMemoryImpl>>,
}

/// What a table holds: each key with the bytes stored under it.
pub uninterp spec fn table_rows(t: Table) -> Map<u64, Seq<u8>>;

/// `ks` lists the keys of `m` once each, in ascending order.
pub open spec fn lists_keys(ks: Seq<u64>, m: Map<u64, Seq<u8>>) -> bool {
    &&& forall|i: int, j: int| 0 <= i < j < ks.len() ==> ks[i] < ks[j]
    &&& forall|i: int| 0 <= i < ks.len() ==> m.contains_key(#[trigger] ks[i])
    &&& forall|k: u64| m.contains_key(k) ==> ks.contains(k)
}

impl Table {
    /// Relies on `MemoryManager::get` and `StableBTreeMap::init`: the region with this tag,
    /// holding whatever map was stored there before. `MemoryId::new` refuses the tag 255.
    #[verifier::external_body]
    pub(crate) fn open(regions: &Regions, tag: u8) -> (t: Table)
        requires
            tag < 255,
        ensures
            forall|k: u64| #[trigger] table_rows(t).contains_key(k) ==> table_rows(t)[k].len() <= 512,
    {
        Table { map: StableBTreeMap::init(regions.manager.get(MemoryId::new(tag))) }
    }

    /// Relies on `StableBTreeMap::contains_key`.
    #[verifier::external_body]
    pub(crate) fn contains_key(&self, key: u64) -> (r: bool)
        ensures
            r == table_rows(*self).contains_key(key),
    {
        self.map.contains_key(&key)
    }

    /// Relies on `StableBTreeMap::get` and `Blob::as_slice`: the bytes stored under `key`.
    #[verifier::external_body]
    pub(crate) fn get(&self, key: u64) -> (r: Option<Vec<u8>>)
        ensures
            r is Some <==> table_rows(*self).contains_key(key),
            r matches Some(v) ==> v@ == table_rows(*self)[key],
    {
        self.map.get(&key).map(|b| b.as_slice().to_vec())
    }

    /// Relies on `Blob::try_from`, which takes at most 512 bytes, and on
    /// `StableBTreeMap::insert`, which replaces what `key` held.
    #[verifier::external_body]
    pub(crate) fn insert(&mut self, key: u64, value: &Vec<u8>)
        requires
            value@.len() <= 512,
        ensures
            table_rows(*final(self)) == table_rows(*old(self)).insert(key, value@),
    {
        if let Ok(blob) = Blob::<512>::try_from(value.as_slice()) {
            self.map.insert(key, blob);
        }
    }

    /// Relies on `StableBTreeMap::iter`: every entry once, sorted by key.
    #[verifier::external_body]
    pub(crate) fn entries(&self) -> (r: Vec<(u64, Vec<u8>)>)
        ensures
            lists_keys(r@.map_values(|e: (u64, Vec<u8>)| e.0), table_rows(*self)),
            forall|i: int|
                0 <= i < r@.len() ==> (#[trigger] r@[i]).1@ == table_rows(*self)[r@[i].0],
    {
        self.map.iter().map(|(k, b)| (k, b.as_slice().to_vec())).collect()
    }
}

/// A durable 64-bit counter.
#[verifier::external_body]
pub struct IdCell {
    cell: Cell<u64, VirtualMemory<DefaultMemoryImpl>>,
}

/// The value that a counter holds.
pub uninterp spec fn cell_value(c: IdCell) -> u64;

impl IdCell {
    /// Relies on `MemoryManager::get` and `Cell::init`: the counter stored in the region with
    /// this tag, or 0 where nothing was stored; `None` where the region holds a cell of another
    /// layout version.
    #[verifier::external_body]
    pub(crate) fn open(regions: &Regions, tag: u8) -> (r: Option<IdCell>)
        requires
            tag < 255,
    {
        Cell::init(regions.manager.get(MemoryId::new(tag)), 0).ok().map(|cell| IdCell { cell })
    }

    /// Relies on `Cell::get`.
    #[verifier::external_body]
    pub(crate) fn get(&self) -> (r: u64)
        ensures
            r == cell_value(*self),
    {
        *self.cell.get()
    }

    /// Relies on `Cell::set`: afterwards the cell holds `value`. It fails only where the memory
    /// must grow, and an opened cell already has a page, more than an 8-byte value needs.
    #[verifier::external_body]
    pub(crate) fn set(&mut self, value: u64)
        ensures
            cell_value(*final(self)) == value,
    {
        self.cell.set(value).expect("an opened cell holds an 8-byte value without growing");
    }
}

} // verus!
