//! Trace header declarations and how they are placed in a database.
use crate::db::{db_wf, DbView, HashDB};
use crate::names::{
    has_key, inserted, key_index, key_view, keys_unique, lookup, name_entries, name_map_get,
    name_map_insert, path_view, EntryView, KeyView, NameKey,
};
use vstd::prelude::*;

verus! {

/// The bit selection of a declared variable.
#[derive(Debug, Copy, Clone, PartialEq, Eq)]
pub enum ReferenceIndex {
    /// A single bit.
    BitSelect(i32),
    /// A range `[msb:lsb]`.
    Range(i32, i32),
}

/// A variable of a trace header with its full hierarchical path (scopes,
/// then the variable's own name).
pub struct VarDecl {
    pub path: Vec<String>,
    pub code: u64,
    pub size: u32,
    pub index: Option<ReferenceIndex>,
}

/// What a list of declarations stands for.
pub open spec fn decl_views(decls: Seq<VarDecl>) -> Seq<DeclView> {
    decls.map_values(|d: VarDecl| d@)
}

/// What a declaration stands for.
pub struct DeclView {
    pub path: Seq<Seq<char>>,
    pub code: u64,
    pub size: u32,
    pub index: Option<ReferenceIndex>,
}

impl View for VarDecl {
    type V = DeclView;

    open spec fn view(&self) -> DeclView {
        DeclView { path: path_view(self.path@), code: self.code, size: self.size, index: self.index }
    }
}

/// Why an ingestion stopped.
#[derive(Debug, Copy, Clone, PartialEq, Eq)]
pub enum IngestError {
    /// A name or a code declared with another width than before, or a bit
    /// range wider than the declared width.
    WidthMismatch,
    /// One slot range claimed by two codes within one trace.
    AliasBreak,
    /// A value change whose bit count differs from the declared width.
    BitCountMismatch,
    /// A code that no declaration of the trace gave.
    UnknownCode,
    /// A code or a slot count beyond what memory can index.
    Capacity,
}

/// The per-trace mapping built by the header pass.
pub struct HeaderMap {
    /// For each code, the first slot and width of its range, once seen.
    pub code_to_slot: Vec<Option<(usize, usize)>>,
    /// For each slot, the code that owns it in this trace, once seen.
    pub slot_owner: Vec<Option<u64>>,
}

/// What a header map stands for.
pub struct HeaderView {
    pub code_to_slot: Seq<Option<(usize, usize)>>,
    pub slot_owner: Seq<Option<u64>>,
}

impl View for HeaderMap {
    type V = HeaderView;

    open spec fn view(&self) -> HeaderView {
        HeaderView { code_to_slot: self.code_to_slot@, slot_owner: self.slot_owner@ }
    }
}

/// The header map agrees with the database: one owner per slot, and every
/// code range inside the fingerprint vector.
pub open spec fn header_wf(d: DbView, m: HeaderView) -> bool {
    &&& m.slot_owner.len() == d.hashes.len()
    &&& forall|c: int|
        0 <= c < m.code_to_slot.len() && (#[trigger] m.code_to_slot[c]) is Some ==> {
            let (s, w) = m.code_to_slot[c]->0;
            s + w <= d.hashes.len() && w > 0
        }
}

/// The number of names a declaration gives.
pub open spec fn bit_count(index: Option<ReferenceIndex>) -> int {
    match index {
        Some(ReferenceIndex::Range(m, l)) => if m >= l {
            m - l + 1
        } else {
            l - m + 1
        },
        _ => 1,
    }
}

/// The bit index of the `j`-th name, counting upward from the lower end
/// of a range.
pub open spec fn bit_at(index: Option<ReferenceIndex>, j: int) -> Option<i32> {
    match index {
        None => None,
        Some(ReferenceIndex::BitSelect(i)) => Some(i),
        Some(ReferenceIndex::Range(m, l)) => if m >= l {
            Some((l + j) as i32)
        } else {
            Some((m + j) as i32)
        },
    }
}

/// The offset in the slot range of the `j`-th name: the msb has offset 0.
pub open spec fn offset_at(index: Option<ReferenceIndex>, j: int) -> int {
    match index {
        Some(ReferenceIndex::Range(m, l)) => if m >= l {
            m - (l + j)
        } else {
            j
        },
        _ => 0,
    }
}

/// The bit index of the name at offset 0.
pub open spec fn first_bit(index: Option<ReferenceIndex>) -> Option<i32> {
    match index {
        None => None,
        Some(ReferenceIndex::BitSelect(i)) => Some(i),
        Some(ReferenceIndex::Range(m, _)) => Some(m),
    }
}

/// Lists the names of a declaration as (bit index, offset) in the order
/// they are inserted.
pub fn enumerate_bits(index: Option<ReferenceIndex>) -> (r: Vec<(Option<i32>, u64)>)
    ensures
        r@.len() == bit_count(index),
        forall|j: int|
            0 <= j < r@.len() ==> #[trigger] r@[j] == (bit_at(index, j), offset_at(index, j) as u64),
{
    let mut r: Vec<(Option<i32>, u64)> = Vec::new();
    match index {
        None => {
            r.push((None, 0));
        },
        Some(ReferenceIndex::BitSelect(i)) => {
            r.push((Some(i), 0));
        },
        Some(ReferenceIndex::Range(m, l)) => {
            let (lo, hi) = if m >= l { (l, m) } else { (m, l) };
            let n: u64 = (hi as i64 - lo as i64) as u64 + 1;
            let mut j: u64 = 0;
            while j < n
                invariant
                    lo <= hi,
                    n == hi - lo + 1,
                    lo == (if m >= l { l } else { m }),
                    hi == (if m >= l { m } else { l }),
                    n == bit_count(index),
                    index == Some(ReferenceIndex::Range(m, l)),
                    j <= n,
                    r@.len() == j,
                    forall|k: int|
                        0 <= k < j ==> #[trigger] r@[k] == (bit_at(index, k), offset_at(index, k) as u64),
                decreases n - j,
            {
                let bit: i32 = (lo as i64 + j as i64) as i32;
                let off: u64 = if m >= l { (m as i64 - bit as i64) as u64 } else { j };
                r.push((Some(bit), off));
                j += 1;
            }
        },
    }
    r
}

/// The entries after inserting the first `n` names of a declaration whose
/// range starts at `start`.
pub open spec fn insert_bits(
    s: Seq<EntryView>,
    path: Seq<Seq<char>>,
    index: Option<ReferenceIndex>,
    start: int,
    n: int,
) -> Seq<EntryView>
    decreases n,
{
    if n <= 0 {
        s
    } else {
        inserted(
            insert_bits(s, path, index, start, n - 1),
            (path, bit_at(index, n - 1)),
            (start + offset_at(index, n - 1)) as usize,
        )
    }
}

/// Every name of the declaration already maps to its place in the range
/// that starts at `start`.
pub open spec fn bits_present(
    s: Seq<EntryView>,
    path: Seq<Seq<char>>,
    index: Option<ReferenceIndex>,
    start: int,
) -> bool {
    forall|j: int|
        0 <= j < bit_count(index) ==> #[trigger] lookup(s, (path, bit_at(index, j))) == Some(
            (start + offset_at(index, j)) as usize,
        )
}

/// Where a declaration's range lies, before the ownership checks: the
/// database and header map after placing it, and the range's first slot.
pub open spec fn placed(d: DbView, m: HeaderView, v: DeclView) -> Result<
    (DbView, HeaderView, int),
    IngestError,
> {
    let size = v.size as int;
    let n = bit_count(v.index);
    match lookup(d.entries, (v.path, first_bit(v.index))) {
        Some(start) => if start + size <= d.hashes.len() && bits_present(
            d.entries,
            v.path,
            v.index,
            start as int,
        ) {
            Ok((d, m, start as int))
        } else {
            Err(IngestError::WidthMismatch)
        },
        None => match m.code_to_slot[v.code as int] {
            Some((s, w)) => if w == size {
                Ok(
                    (
                        DbView {
                            entries: insert_bits(d.entries, v.path, v.index, s as int, n),
                            hashes: d.hashes,
                        },
                        m,
                        s as int,
                    ),
                )
            } else {
                Err(IngestError::WidthMismatch)
            },
            None => if d.hashes.len() + size > usize::MAX {
                Err(IngestError::Capacity)
            } else {
                let start = d.hashes.len() as int;
                Ok(
                    (
                        DbView {
                            entries: insert_bits(d.entries, v.path, v.index, start, n),
                            hashes: d.hashes + Seq::new(size as nat, |i: int| 0u64),
                        },
                        HeaderView {
                            code_to_slot: m.code_to_slot,
                            slot_owner: m.slot_owner + Seq::new(size as nat, |i: int| None::<u64>),
                        },
                        start,
                    ),
                )
            },
        },
    }
}

/// The database and header map after a declaration, or why it is refused.
pub open spec fn declared(d: DbView, m: HeaderView, v: DeclView) -> Result<
    (DbView, HeaderView),
    IngestError,
> {
    if v.code >= m.code_to_slot.len() {
        Err(IngestError::Capacity)
    } else if v.size == 0 || bit_count(v.index) > v.size {
        Err(IngestError::WidthMismatch)
    } else {
        match placed(d, m, v) {
            Err(e) => Err(e),
            Ok((d1, m1, start)) => {
                let owner = m1.slot_owner[start];
                let code_range = m1.code_to_slot[v.code as int];
                let done = Ok(
                    (
                        d1,
                        HeaderView {
                            code_to_slot: m1.code_to_slot.update(
                                v.code as int,
                                Some((start as usize, v.size as usize)),
                            ),
                            slot_owner: m1.slot_owner.update(start, Some(v.code)),
                        },
                    ),
                );
                if owner is Some && owner != Some(v.code) {
                    Err(IngestError::AliasBreak)
                } else {
                    match code_range {
                        Some((s, w)) => if s != start {
                            Err(IngestError::AliasBreak)
                        } else if w != v.size {
                            Err(IngestError::WidthMismatch)
                        } else {
                            done
                        },
                        None => done,
                    }
                }
            },
        }
    }
}

/// Inserting a name keeps names unique and slots below `bound`.
pub proof fn lemma_inserted_wf(s: Seq<EntryView>, k: KeyView, v: usize, bound: int)
    requires
        keys_unique(s),
        forall|i: int| 0 <= i < s.len() ==> #[trigger] s[i].1 < bound,
        v < bound,
    ensures
        keys_unique(inserted(s, k, v)),
        forall|i: int| 0 <= i < inserted(s, k, v).len() ==> #[trigger] inserted(s, k, v)[i].1 < bound,
        inserted(s, k, v).len() == s.len() + (if has_key(s, k) { 0int } else { 1int }),
        lookup(inserted(s, k, v), k) == Some(v),
{
    let r = inserted(s, k, v);
    if has_key(s, k) {
        let x = key_index(s, k);
        assert(forall|i: int| 0 <= i < s.len() ==> #[trigger] r[i].0 == s[i].0);
        assert(r[x].0 == k);
        assert(has_key(r, k));
    } else {
        assert(r[s.len() as int].0 == k);
        assert(has_key(r, k));
    }
}

/// A slot found by lookup is below any bound on all slots.
pub proof fn lemma_lookup_bound(s: Seq<EntryView>, k: KeyView, bound: int)
    requires
        forall|i: int| 0 <= i < s.len() ==> #[trigger] s[i].1 < bound,
    ensures
        lookup(s, k) matches Some(x) ==> x < bound,
{
    if has_key(s, k) {
        let i = key_index(s, k);
        assert(s[i].1 < bound);
    }
}

/// Inserting the names of a declaration keeps names unique and slots
/// below `bound`.
pub proof fn lemma_insert_bits_wf(
    s: Seq<EntryView>,
    path: Seq<Seq<char>>,
    index: Option<ReferenceIndex>,
    start: int,
    n: int,
    bound: int,
)
    requires
        keys_unique(s),
        forall|i: int| 0 <= i < s.len() ==> #[trigger] s[i].1 < bound,
        0 <= n <= bit_count(index),
        start >= 0,
        start + bit_count(index) <= bound,
        bound <= usize::MAX + 1,
    ensures
        keys_unique(insert_bits(s, path, index, start, n)),
        forall|i: int|
            0 <= i < insert_bits(s, path, index, start, n).len() ==> #[trigger] insert_bits(
                s,
                path,
                index,
                start,
                n,
            )[i].1 < bound,
    decreases n,
{
    if n > 0 {
        lemma_insert_bits_wf(s, path, index, start, n - 1, bound);
        lemma_inserted_wf(
            insert_bits(s, path, index, start, n - 1),
            (path, bit_at(index, n - 1)),
            (start + offset_at(index, n - 1)) as usize,
            bound,
        );
    }
}

impl HashDB {
    /// Header pass for one declaration: reuses the range of a name already
    /// in the database, else the range the code got earlier in this trace,
    /// else appends a new zeroed range; inserts one name per bit; then
    /// checks that no other code of this trace owns the range.
    #[verifier::loop_isolation(false)]
    pub fn declare(&mut self, hm: &mut HeaderMap, v: &VarDecl) -> (r: Result<(), IngestError>)
        requires
            db_wf(old(self)@),
            header_wf(old(self)@, old(hm)@),
        ensures
            match declared(old(self)@, old(hm)@, v@) {
                Ok((d, m)) => r is Ok && final(self)@ == d && final(hm)@ == m,
                Err(e) => r == Err::<(), IngestError>(e),
            },
            db_wf(final(self)@),
            r is Ok ==> header_wf(final(self)@, final(hm)@),
    {
        let ghost d0 = self@;
        let ghost m0 = hm@;
        if v.code >= hm.code_to_slot.len() as u64 {
            return Err(IngestError::Capacity);
        }
        let code = v.code as usize;
        let size = v.size as usize;
        let bits = enumerate_bits(v.index);
        if size == 0 || bits.len() > size {
            return Err(IngestError::WidthMismatch);
        }
        let n = bits.len();
        let first = match v.index {
            None => None,
            Some(ReferenceIndex::BitSelect(i)) => Some(i),
            Some(ReferenceIndex::Range(m, _)) => Some(m),
        };
        let key: NameKey = (v.path.clone(), first);
        assert(key_view(key) == (v@.path, first_bit(v.index))) by {
            assert(key.0@ =~= v.path@);
        }
        let start: usize = match name_map_get(&self.name2id, &key) {
            Some(start) => {
                proof {
                    lemma_lookup_bound(d0.entries, key_view(key), d0.hashes.len() as int);
                }
                if size > self.hashes.len() - start {
                    return Err(IngestError::WidthMismatch);
                }
                let mut j: usize = 0;
                while j < n
                    invariant
                        self@ == d0,
                        n == bits@.len() == bit_count(v.index),
                        j <= n,
                        forall|k: int|
                            0 <= k < bits@.len() ==> #[trigger] bits@[k] == (
                                bit_at(v.index, k),
                                offset_at(v.index, k) as u64,
                            ),
                        forall|k: int|
                            0 <= k < j ==> #[trigger] lookup(d0.entries, (v@.path, bit_at(v.index, k)))
                                == Some((start + offset_at(v.index, k)) as usize),
                        start + size <= self.hashes.len(),
                        n <= size,
                    decreases n - j,
                {
                    let (bit, off) = bits[j];
                    let k2: NameKey = (v.path.clone(), bit);
                    assert(key_view(k2) == (v@.path, bit_at(v.index, j as int))) by {
                        assert(k2.0@ =~= v.path@);
                    }
                    let got = name_map_get(&self.name2id, &k2);
                    if got != Some(start + off as usize) {
                        assert(lookup(d0.entries, (v@.path, bit_at(v.index, j as int))) != Some(
                            (start + offset_at(v.index, j as int)) as usize,
                        ));
                        return Err(IngestError::WidthMismatch);
                    }
                    j += 1;
                }
                start
            },
            None => {
                let ghost e0 = name_entries(self.name2id);
                let start = match hm.code_to_slot[code] {
                    Some((s, w)) => {
                        if w != size {
                            return Err(IngestError::WidthMismatch);
                        }
                        s
                    },
                    None => {
                        if size > usize::MAX - self.hashes.len() {
                            return Err(IngestError::Capacity);
                        }
                        let start = self.hashes.len();
                        let mut j: usize = 0;
                        while j < size
                            invariant
                                self.name2id == old(self).name2id,
                                hm.code_to_slot == old(hm).code_to_slot,
                                start == d0.hashes.len(),
                                start + size <= usize::MAX,
                                j <= size,
                                self.hashes@ =~= d0.hashes + Seq::new(j as nat, |i: int| 0u64),
                                hm.slot_owner@ =~= m0.slot_owner + Seq::new(j as nat, |i: int| None::<u64>),
                            decreases size - j,
                        {
                            self.hashes.push(0);
                            hm.slot_owner.push(None);
                            j += 1;
                        }
                        start
                    },
                };
                assert(start + size <= self.hashes.len());
                proof {
                    lemma_insert_bits_wf(e0, v@.path, v.index, start as int, 0, self.hashes@.len() as int);
                }
                let mut j: usize = 0;
                while j < n
                    invariant
                        hm@ == (match placed(d0, m0, v@) { Ok((_, m1, _)) => m1, Err(_) => m0 }),
                        self.hashes@ == (match placed(d0, m0, v@) { Ok((d1, _, _)) => d1.hashes, Err(_) => d0.hashes }),
                        n == bits@.len() == bit_count(v.index),
                        j <= n,
                        forall|k: int|
                            0 <= k < bits@.len() ==> #[trigger] bits@[k] == (
                                bit_at(v.index, k),
                                offset_at(v.index, k) as u64,
                            ),
                        start + size <= self.hashes.len(),
                        n <= size,
                        keys_unique(e0),
                        forall|i: int| 0 <= i < e0.len() ==> #[trigger] e0[i].1 < self.hashes@.len(),
                        name_entries(self.name2id) == insert_bits(e0, v@.path, v.index, start as int, j as int),
                    decreases n - j,
                {
                    let (bit, off) = bits[j];
                    let k2: NameKey = (v.path.clone(), bit);
                    assert(key_view(k2) == (v@.path, bit_at(v.index, j as int))) by {
                        assert(k2.0@ =~= v.path@);
                    }
                    proof {
                        lemma_insert_bits_wf(e0, v@.path, v.index, start as int, j as int, self.hashes@.len() as int);
                    }
                    let _ = name_map_insert(&mut self.name2id, k2, start + off as usize);
                    j += 1;
                }
                proof {
                    lemma_insert_bits_wf(e0, v@.path, v.index, start as int, n as int, self.hashes@.len() as int);
                }
                start
            },
        };
        let owner = hm.slot_owner[start];
        if owner.is_some() && owner != Some(v.code) {
            return Err(IngestError::AliasBreak);
        }
        let code_range = hm.code_to_slot[code];
        match code_range {
            Some((s, w)) => {
                if s != start {
                    return Err(IngestError::AliasBreak);
                }
                if w != size {
                    return Err(IngestError::WidthMismatch);
                }
            },
            None => {},
        }
        hm.code_to_slot.set(code, Some((start, size)));
        hm.slot_owner.set(start, Some(v.code));
        Ok(())
    }
}

} // verus!
