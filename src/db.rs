//! The fingerprint database: names mapped to slots of a flat vector of
//! fingerprints.
use crate::fingerprint::TRACE_SEPARATOR;
use crate::hier::HId;
use crate::names::{
    key_view, keys_unique, name_entries, name_map_entry, name_map_insert, name_map_len,
    name_map_new, EntryView, NameKey, NameMap,
};
use vstd::prelude::*;
use vstd::wrapping::u64_specs::wrapping_mul;

verus! {

/// The hash database.
pub struct HashDB {
    /// Name to slot in `hashes`; every bit of a vector has its own name.
    pub name2id: NameMap,
    /// The fingerprints, one per slot.
    pub hashes: Vec<u64>,
}

/// The mathematical content of a database.
pub struct DbView {
    pub entries: Seq<EntryView>,
    pub hashes: Seq<u64>,
}

/// Names are unique and every slot is inside the fingerprint vector.
pub open spec fn db_wf(d: DbView) -> bool {
    &&& keys_unique(d.entries)
    &&& forall|i: int| 0 <= i < d.entries.len() ==> #[trigger] d.entries[i].1 < d.hashes.len()
}

/// The fingerprints after the separator between two traces.
pub open spec fn separated(h: Seq<u64>) -> Seq<u64> {
    h.map_values(|x: u64| wrapping_mul(x, TRACE_SEPARATOR))
}

impl View for HashDB {
    type V = DbView;

    open spec fn view(&self) -> DbView {
        DbView { entries: name_entries(self.name2id), hashes: self.hashes@ }
    }
}

impl HashDB {
    /// The database invariant.
    pub open spec fn wf(&self) -> bool {
        db_wf(self@)
    }

    /// Creates an empty database.
    pub fn new() -> (r: HashDB)
        ensures
            r@.entries.len() == 0,
            r@.hashes.len() == 0,
            r.wf(),
    {
        HashDB { name2id: name_map_new(), hashes: Vec::new() }
    }

    /// Multiplies every fingerprint by the trace separator, modulo 2^64.
    pub fn separate(&mut self)
        ensures
            final(self)@ == (DbView { entries: old(self)@.entries, hashes: separated(old(self)@.hashes) }),
    {
        let n = self.hashes.len();
        let mut i: usize = 0;
        while i < n
            invariant
                n == self.hashes.len() == old(self).hashes.len(),
                self.name2id == old(self).name2id,
                0 <= i <= n,
                forall|j: int| 0 <= j < i ==> self.hashes@[j] == wrapping_mul(old(self).hashes@[j], TRACE_SEPARATOR),
                forall|j: int| i <= j < n ==> self.hashes@[j] == old(self).hashes@[j],
            decreases n - i,
        {
            let v = self.hashes[i].wrapping_mul(TRACE_SEPARATOR);
            self.hashes.set(i, v);
            i += 1;
        }
        assert(self.hashes@ =~= separated(old(self).hashes@));
    }
}

/// Why stored parts do not form a database.
#[derive(Debug, Copy, Clone, PartialEq, Eq)]
pub enum LoadError {
    /// An entry's slot is outside the fingerprint vector.
    SlotOutOfRange,
    /// A name occurs twice.
    DuplicateName,
}

/// What a list of (name, slot) pairs stands for.
pub open spec fn pair_views(s: Seq<(HId, usize)>) -> Seq<EntryView> {
    s.map_values(|p: (HId, usize)| (p.0@, p.1))
}

/// The database that stored entries and fingerprints form, or why they
/// form none.
pub open spec fn loaded(entries: Seq<EntryView>, hashes: Seq<u64>) -> Result<DbView, LoadError> {
    if exists|i: int| 0 <= i < entries.len() && #[trigger] entries[i].1 >= hashes.len() {
        Err(LoadError::SlotOutOfRange)
    } else if !keys_unique(entries) {
        Err(LoadError::DuplicateName)
    } else {
        Ok(DbView { entries, hashes })
    }
}

/// Storing a well-formed database as its entries and fingerprints and
/// loading them back gives the same database, names in the same order.
pub proof fn lemma_store_load_round_trip(d: DbView)
    requires
        db_wf(d),
    ensures
        loaded(d.entries, d.hashes) == Ok::<DbView, LoadError>(d),
{
}

impl HashDB {
    /// The entries (name, slot) in insertion order.
    pub fn entries(&self) -> (r: Vec<(HId, usize)>)
        ensures
            pair_views(r@) == self@.entries,
    {
        let n = name_map_len(&self.name2id);
        let mut r: Vec<(HId, usize)> = Vec::new();
        let mut i: usize = 0;
        while i < n
            invariant
                n == self@.entries.len(),
                i <= n,
                pair_views(r@) == self@.entries.subrange(0, i as int),
            decreases n - i,
        {
            let (k, v) = name_map_entry(&self.name2id, i);
            let ghost rv = pair_views(r@);
            r.push((HId(k.0, k.1), v));
            assert(pair_views(r@) =~= rv.push(self@.entries[i as int]));
            assert(self@.entries.subrange(0, i as int + 1) =~= self@.entries.subrange(0, i as int).push(
                self@.entries[i as int],
            ));
            i += 1;
        }
        assert(self@.entries.subrange(0, n as int) =~= self@.entries);
        r
    }

    /// Builds a database from stored entries, in their order, and
    /// fingerprints.
    pub fn from_parts(entries: Vec<(HId, usize)>, hashes: Vec<u64>) -> (r: Result<HashDB, LoadError>)
        ensures
            match loaded(pair_views(entries@), hashes@) {
                Ok(d) => r matches Ok(db) && db@ == d && db.wf(),
                Err(e) => r matches Err(e2) && e2 == e,
            },
    {
        let ghost ev = pair_views(entries@);
        let n = entries.len();
        let mut i: usize = 0;
        while i < n
            invariant
                n == entries@.len() == ev.len(),
                ev == pair_views(entries@),
                i <= n,
                forall|j: int| 0 <= j < i ==> #[trigger] ev[j].1 < hashes@.len(),
            decreases n - i,
        {
            if entries[i].1 >= hashes.len() {
                assert(ev[i as int].1 >= hashes@.len());
                return Err(LoadError::SlotOutOfRange);
            }
            i += 1;
        }
        let mut map = name_map_new();
        let mut i: usize = 0;
        while i < n
            invariant
                n == entries@.len() == ev.len(),
                ev == pair_views(entries@),
                i <= n,
                forall|j: int| 0 <= j < n ==> #[trigger] ev[j].1 < hashes@.len(),
                name_entries(map) == ev.subrange(0, i as int),
                keys_unique(ev.subrange(0, i as int)),
            decreases n - i,
        {
            let path = entries[i].0.0.clone();
            assert(path@ =~= entries@[i as int].0.0@);
            let key: NameKey = (path, entries[i].0.1);
            assert(key_view(key) == ev[i as int].0);
            let ghost before = name_entries(map);
            if name_map_insert(&mut map, key, entries[i].1).is_some() {
                proof {
                    let x = choose|x: int| 0 <= x < before.len() && before[x].0 == ev[i as int].0;
                    assert(ev[x].0 == ev[i as int].0);
                }
                return Err(LoadError::DuplicateName);
            }
            assert(ev.subrange(0, i as int + 1) =~= before.push(ev[i as int]));
            i += 1;
        }
        assert(ev.subrange(0, n as int) =~= ev);
        Ok(HashDB { name2id: map, hashes })
    }
}

} // verus!
