//! Grouping the bits of two databases by fingerprint.
use crate::db::{db_wf, DbView, HashDB};
use crate::hier::HId;
use crate::names::{
    has_key, hash_entries, hash_index_get, hash_index_insert, hash_index_new, key_index, lookup,
    name_map_entry, name_map_len, HashIndex, KeyView,
};
use vstd::prelude::*;

verus! {

/// The names of both databases that share one fingerprint.
pub struct MatchGroup {
    pub hash: u64,
    /// Names of the first database, in its order.
    pub left: Vec<HId>,
    /// Names of the second database, in its order.
    pub right: Vec<HId>,
}

/// What a group stands for.
pub struct GroupView {
    pub hash: u64,
    pub left: Seq<KeyView>,
    pub right: Seq<KeyView>,
}

/// The names a list of nets stands for.
pub open spec fn hid_views(s: Seq<HId>) -> Seq<KeyView> {
    s.map_values(|h: HId| h@)
}

impl View for MatchGroup {
    type V = GroupView;

    open spec fn view(&self) -> GroupView {
        GroupView { hash: self.hash, left: hid_views(self.left@), right: hid_views(self.right@) }
    }
}

/// What a list of groups stands for.
pub open spec fn group_views(s: Seq<MatchGroup>) -> Seq<GroupView> {
    s.map_values(|g: MatchGroup| g@)
}

/// The group that holds fingerprint `h`, if any.
pub open spec fn group_pos(gs: Seq<GroupView>, h: u64) -> Option<int> {
    if exists|j: int| 0 <= j < gs.len() && gs[j].hash == h {
        Some(choose|j: int| 0 <= j < gs.len() && gs[j].hash == h)
    } else {
        None
    }
}

/// The groups after adding name `k` with fingerprint `h` on one side: to
/// the group of `h`, or to a new last group.
pub open spec fn pooled(gs: Seq<GroupView>, h: u64, k: KeyView, left: bool) -> Seq<GroupView> {
    match group_pos(gs, h) {
        Some(j) => gs.update(
            j,
            if left {
                GroupView { left: gs[j].left.push(k), ..gs[j] }
            } else {
                GroupView { right: gs[j].right.push(k), ..gs[j] }
            },
        ),
        None => gs.push(
            GroupView {
                hash: h,
                left: if left { seq![k] } else { Seq::empty() },
                right: if left { Seq::empty() } else { seq![k] },
            },
        ),
    }
}

/// The groups after adding the first `n` names of `d` on one side.
pub open spec fn side_pooled(gs: Seq<GroupView>, d: DbView, left: bool, n: int) -> Seq<GroupView>
    decreases n,
{
    if n <= 0 {
        gs
    } else {
        let e = d.entries[n - 1];
        pooled(side_pooled(gs, d, left, n - 1), d.hashes[e.1 as int], e.0, left)
    }
}

/// All names of `d1`, then all of `d2`, grouped by fingerprint; groups in
/// order of first occurrence.
pub open spec fn pool(d1: DbView, d2: DbView) -> Seq<GroupView> {
    side_pooled(side_pooled(Seq::empty(), d1, true, d1.entries.len() as int), d2, false, d2.entries.len() as int)
}

/// The group has names on both sides.
pub open spec fn both_sides(g: GroupView) -> bool {
    g.left.len() > 0 && g.right.len() > 0
}

/// The group has names on both sides, at most `cap` on each.
pub open spec fn within_cap(g: GroupView, cap: usize) -> bool {
    both_sides(g) && g.left.len() <= cap && g.right.len() <= cap
}

/// The number of groups with names on both sides.
pub open spec fn count_both(gs: Seq<GroupView>) -> int
    decreases gs.len(),
{
    if gs.len() == 0 {
        0
    } else {
        count_both(gs.drop_last()) + if both_sides(gs.last()) { 1int } else { 0int }
    }
}

/// The groups within the cap, in order.
pub open spec fn qualifying(gs: Seq<GroupView>, cap: usize) -> Seq<GroupView>
    decreases gs.len(),
{
    if gs.len() == 0 {
        Seq::empty()
    } else if within_cap(gs.last(), cap) {
        qualifying(gs.drop_last(), cap).push(gs.last())
    } else {
        qualifying(gs.drop_last(), cap)
    }
}

/// The summary of a match between two databases.
pub struct MatchReport {
    /// Number of distinct fingerprints.
    pub total: usize,
    /// Number of fingerprints with names in both databases.
    pub both: usize,
    /// The groups with names on both sides and at most the cap on each.
    pub groups: Vec<MatchGroup>,
}

/// The fingerprint index points each group's fingerprint at its position.
pub open spec fn index_matches(e: Seq<(u64, usize)>, gs: Seq<GroupView>) -> bool {
    &&& e.len() == gs.len()
    &&& forall|j: int| 0 <= j < e.len() ==> #[trigger] e[j] == (gs[j].hash, j as usize)
    &&& forall|i: int, j: int| 0 <= i < gs.len() && 0 <= j < gs.len() && i != j ==> gs[i].hash != gs[j].hash
}

proof fn lemma_index_lookup(e: Seq<(u64, usize)>, gs: Seq<GroupView>, h: u64)
    requires
        index_matches(e, gs),
        gs.len() <= usize::MAX,
    ensures
        lookup(e, h) matches Some(j) ==> group_pos(gs, h) == Some(j as int),
        lookup(e, h) is None ==> group_pos(gs, h) is None,
{
    if has_key(e, h) {
        let j = key_index(e, h);
        assert(e[j] == (gs[j].hash, j as usize));
        assert(gs[j].hash == h);
        let g = choose|j: int| 0 <= j < gs.len() && gs[j].hash == h;
        assert(g == j);
    } else {
        if exists|j: int| 0 <= j < gs.len() && gs[j].hash == h {
            let g = choose|j: int| 0 <= j < gs.len() && gs[j].hash == h;
            assert(e[g].0 == h);
        }
    }
}

/// Adds every name of `db` to the groups, on the side that `left` says.
fn add_side(groups: &mut Vec<MatchGroup>, idx: &mut HashIndex, db: &HashDB, left: bool)
    requires
        db_wf(db@),
        index_matches(hash_entries(*old(idx)), group_views(old(groups)@)),
    ensures
        index_matches(hash_entries(*final(idx)), group_views(final(groups)@)),
        group_views(final(groups)@) == side_pooled(group_views(old(groups)@), db@, left, db@.entries.len() as int),
{
    let n = name_map_len(&db.name2id);
    let ghost g0 = group_views(groups@);
    let mut i: usize = 0;
    while i < n
        invariant
            db_wf(db@),
            n == db@.entries.len(),
            i <= n,
            index_matches(hash_entries(*idx), group_views(groups@)),
            group_views(groups@) == side_pooled(g0, db@, left, i as int),
        decreases n - i,
    {
        let ghost gv = group_views(groups@);
        let _ = groups.len();
        let (key, slot) = name_map_entry(&db.name2id, i);
        assert(db@.entries[i as int].1 < db@.hashes.len());
        let h = db.hashes[slot];
        let hid = HId(key.0, key.1);
        proof {
            lemma_index_lookup(hash_entries(*idx), gv, h);
        }
        match hash_index_get(idx, h) {
            Some(j) => {
                let ghost og = groups@;
                if left {
                    groups[j].left.push(hid);
                    assert(hid_views(groups@[j as int].left@) =~= hid_views(og[j as int].left@).push(hid@));
                } else {
                    groups[j].right.push(hid);
                    assert(hid_views(groups@[j as int].right@) =~= hid_views(og[j as int].right@).push(hid@));
                }
                assert(groups@.len() == og.len());
                assert(forall|x: int| 0 <= x < og.len() && x != j ==> groups@[x] == og[x]);
                assert(group_views(groups@) =~= pooled(gv, h, hid@, left));
            },
            None => {
                let k = groups.len();
                let mut l: Vec<HId> = Vec::new();
                let mut r: Vec<HId> = Vec::new();
                if left {
                    l.push(hid);
                } else {
                    r.push(hid);
                }
                assert(hid_views(l@) =~= (if left { seq![hid@] } else { Seq::empty() }));
                assert(hid_views(r@) =~= (if left { Seq::empty() } else { seq![hid@] }));
                groups.push(MatchGroup { hash: h, left: l, right: r });
                let _ = hash_index_insert(idx, h, k);
                assert(group_views(groups@) =~= pooled(gv, h, hid@, left));
            },
        }
        i += 1;
    }
}

proof fn lemma_count_both_bound(gs: Seq<GroupView>)
    ensures
        0 <= count_both(gs) <= gs.len(),
    decreases gs.len(),
{
    if gs.len() > 0 {
        lemma_count_both_bound(gs.drop_last());
    }
}

/// Every kept group has names on both sides and at most `cap` on each,
/// and is one of the groups.
pub proof fn lemma_kept_groups_within_cap(gs: Seq<GroupView>, cap: usize)
    ensures
        forall|i: int|
            0 <= i < qualifying(gs, cap).len() ==> within_cap(#[trigger] qualifying(gs, cap)[i], cap)
                && gs.contains(qualifying(gs, cap)[i]),
    decreases gs.len(),
{
    if gs.len() > 0 {
        let pre = gs.drop_last();
        lemma_kept_groups_within_cap(pre, cap);
        assert forall|i: int| 0 <= i < qualifying(gs, cap).len() implies within_cap(
            #[trigger] qualifying(gs, cap)[i],
            cap,
        ) && gs.contains(qualifying(gs, cap)[i]) by {
            if i < qualifying(pre, cap).len() {
                let g = qualifying(pre, cap)[i];
                assert(pre.contains(g));
                let k = choose|k: int| 0 <= k < pre.len() && pre[k] == g;
                assert(gs[k] == g);
            } else {
                assert(gs[gs.len() - 1] == gs.last());
            }
        }
    }
}

/// A group with names on both sides counts as both-sided, whatever its
/// size.
pub proof fn lemma_both_sided_counted(gs: Seq<GroupView>, j: int)
    requires
        0 <= j < gs.len(),
        both_sides(gs[j]),
    ensures
        count_both(gs) >= 1,
    decreases gs.len(),
{
    if j < gs.len() - 1 {
        lemma_both_sided_counted(gs.drop_last(), j);
        lemma_count_both_bound(gs.drop_last());
    } else {
        lemma_count_both_bound(gs.drop_last());
    }
}

/// Groups the names of two databases by fingerprint and keeps the groups
/// with names on both sides and at most `cap` names on each.
pub fn match_dbs(db1: &HashDB, db2: &HashDB, cap: usize) -> (r: MatchReport)
    requires
        db_wf(db1@),
        db_wf(db2@),
    ensures
        r.total == pool(db1@, db2@).len(),
        r.both == count_both(pool(db1@, db2@)),
        group_views(r.groups@) == qualifying(pool(db1@, db2@), cap),
{
    let mut groups: Vec<MatchGroup> = Vec::new();
    let mut idx = hash_index_new();
    assert(group_views(groups@) =~= Seq::<GroupView>::empty());
    add_side(&mut groups, &mut idx, db1, true);
    add_side(&mut groups, &mut idx, db2, false);
    let ghost all = group_views(groups@);
    let mut both: usize = 0;
    let mut kept: Vec<MatchGroup> = Vec::new();
    let n = groups.len();
    let mut i: usize = 0;
    while i < n
        invariant
            n == all.len() == groups@.len(),
            i <= n,
            forall|x: int| i <= x < n ==> #[trigger] groups@[x]@ == all[x],
            both == count_both(all.subrange(0, i as int)),
            group_views(kept@) == qualifying(all.subrange(0, i as int), cap),
        decreases n - i,
    {
        assert(all.subrange(0, i as int + 1).drop_last() =~= all.subrange(0, i as int));
        assert(count_both(all.subrange(0, i as int)) <= i) by {
            lemma_count_both_bound(all.subrange(0, i as int));
        }
        let mut g = MatchGroup { hash: 0, left: Vec::new(), right: Vec::new() };
        std::mem::swap(&mut g, &mut groups[i]);
        assert(g@ == all[i as int]);
        let nl = g.left.len();
        let nr = g.right.len();
        if nl > 0 && nr > 0 {
            both += 1;
        }
        if nl > 0 && nr > 0 && nl <= cap && nr <= cap {
            let ghost kv = group_views(kept@);
            kept.push(g);
            assert(group_views(kept@) =~= kv.push(all[i as int]));
        }
        i += 1;
    }
    assert(all.subrange(0, n as int) =~= all);
    MatchReport { total: n, both, groups: kept }
}

} // verus!
