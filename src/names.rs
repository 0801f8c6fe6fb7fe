//! The insertion-ordered map from hierarchical names to fingerprint slots,
//! held in an `indexmap::IndexMap`.
use indexmap::IndexMap;
use vstd::prelude::*;

verus! {

/// A name key as stored: hierarchy segments, outermost first, and an
/// optional bit index.
pub type NameKey = (Vec<String>, Option<i32>);

/// What a name key stands for.
pub type KeyView = (Seq<Seq<char>>, Option<i32>);

/// One entry of the map as seen by contracts.
pub type EntryView = (KeyView, usize);

/// The map from names to slots, in insertion order.
pub type NameMap = IndexMap<NameKey, usize>;

#[verifier::external_type_specification]
#[verifier::external_body]
#[verifier::reject_recursive_types(K)]
#[verifier::reject_recursive_types(V)]
#[verifier::reject_recursive_types(S)]
pub struct ExIndexMap<K, V, S>(IndexMap<K, V, S>);

/// The segments of a path, each as its characters.
pub open spec fn path_view(p: Seq<String>) -> Seq<Seq<char>> {
    p.map_values(|s: String| s@)
}

/// What a stored key stands for.
pub open spec fn key_view(k: NameKey) -> KeyView {
    (path_view(k.0@), k.1)
}

/// The entries of a name map, in insertion order.
pub uninterp spec fn name_entries(m: NameMap) -> Seq<EntryView>;

/// No key appears twice.
pub open spec fn keys_unique<K>(s: Seq<(K, usize)>) -> bool {
    forall|i: int, j: int| 0 <= i < s.len() && 0 <= j < s.len() && i != j ==> s[i].0 != s[j].0
}

/// The key occurs in the entries.
pub open spec fn has_key<K>(s: Seq<(K, usize)>, k: K) -> bool {
    exists|i: int| 0 <= i < s.len() && s[i].0 == k
}

/// The position of a key that occurs in the entries.
pub open spec fn key_index<K>(s: Seq<(K, usize)>, k: K) -> int {
    choose|i: int| 0 <= i < s.len() && s[i].0 == k
}

/// The slot a key maps to, if any.
pub open spec fn lookup<K>(s: Seq<(K, usize)>, k: K) -> Option<usize> {
    if has_key(s, k) {
        Some(s[key_index(s, k)].1)
    } else {
        None
    }
}

/// The entries after inserting `k -> v`: a present key keeps its place and
/// takes the new value, an absent one is appended.
pub open spec fn inserted<K>(s: Seq<(K, usize)>, k: K, v: usize) -> Seq<(K, usize)> {
    if has_key(s, k) {
        s.update(key_index(s, k), (k, v))
    } else {
        s.push((k, v))
    }
}

/// Relies on `IndexMap::new`: an empty map.
#[verifier::external_body]
pub(crate) fn name_map_new() -> (r: NameMap)
    ensures
        name_entries(r) == Seq::<EntryView>::empty(),
{
    IndexMap::new()
}

/// Relies on `IndexMap::len`: the number of entries.
#[verifier::external_body]
pub(crate) fn name_map_len(m: &NameMap) -> (r: usize)
    ensures
        r == name_entries(*m).len(),
{
    m.len()
}

/// Relies on `IndexMap::get`: the value stored under an equal key.
#[verifier::external_body]
pub(crate) fn name_map_get(m: &NameMap, k: &NameKey) -> (r: Option<usize>)
    ensures
        r == lookup(name_entries(*m), key_view(*k)),
{
    m.get(k).copied()
}

/// Relies on `IndexMap::insert`: an equal key keeps its place and takes the
/// new value; otherwise the entry goes last.
#[verifier::external_body]
pub(crate) fn name_map_insert(m: &mut NameMap, k: NameKey, v: usize) -> (r: Option<usize>)
    ensures
        name_entries(*final(m)) == inserted(name_entries(*old(m)), key_view(k), v),
        r == lookup(name_entries(*old(m)), key_view(k)),
{
    m.insert(k, v)
}

/// Relies on `IndexMap::get_index`: the entry at a position, its key cloned.
#[verifier::external_body]
pub(crate) fn name_map_entry(m: &NameMap, i: usize) -> (r: (NameKey, usize))
    requires
        i < name_entries(*m).len(),
    ensures
        key_view(r.0) == name_entries(*m)[i as int].0,
        r.1 == name_entries(*m)[i as int].1,
{
    let (k, v) = m.get_index(i).unwrap();
    (k.clone(), *v)
}

/// A map from fingerprints to positions, in insertion order.
pub type HashIndex = IndexMap<u64, usize>;

/// The entries of a fingerprint index, in insertion order.
pub uninterp spec fn hash_entries(m: HashIndex) -> Seq<(u64, usize)>;

/// Relies on `IndexMap::new`: an empty map.
#[verifier::external_body]
pub(crate) fn hash_index_new() -> (r: HashIndex)
    ensures
        hash_entries(r) == Seq::<(u64, usize)>::empty(),
{
    IndexMap::new()
}

/// Relies on `IndexMap::get`: the value stored under the fingerprint.
#[verifier::external_body]
pub(crate) fn hash_index_get(m: &HashIndex, h: u64) -> (r: Option<usize>)
    ensures
        r == lookup(hash_entries(*m), h),
{
    m.get(&h).copied()
}

/// Relies on `IndexMap::insert`: a present key keeps its place and takes
/// the new value; otherwise the entry goes last.
#[verifier::external_body]
pub(crate) fn hash_index_insert(m: &mut HashIndex, h: u64, v: usize) -> (r: Option<usize>)
    ensures
        hash_entries(*final(m)) == inserted(hash_entries(*old(m)), h, v),
        r == lookup(hash_entries(*old(m)), h),
{
    m.insert(h, v)
}

} // verus!
