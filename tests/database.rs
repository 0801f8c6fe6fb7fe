use simalign::fingerprint::strobe_index;
use simalign::{match_dbs, BitState, HId, HashDB, HierNameIdx, LoadError, RefHId};

fn hid(path: &[&str], bit: Option<i32>) -> HId {
    HId(path.iter().map(|s| s.to_string()).collect(), bit)
}

#[test]
fn round_trip_keeps_insertion_order() {
    let parts = vec![(hid(&["top", "a"], None), 0), (hid(&["top", "c"], None), 1), (hid(&["top", "b"], None), 2)];
    let db = HashDB::from_parts(parts, vec![7, 8, 9]).unwrap();
    let stored = db.entries();
    let order: Vec<String> = stored.iter().map(|(h, _)| h.to_string()).collect();
    assert_eq!(order, vec!["top/a", "top/c", "top/b"]);
    let again = HashDB::from_parts(stored, db.hashes.clone()).unwrap();
    let order2: Vec<(String, usize)> = again.entries().iter().map(|(h, s)| (h.to_string(), *s)).collect();
    assert_eq!(order2, vec![("top/a".to_string(), 0), ("top/c".to_string(), 1), ("top/b".to_string(), 2)]);
    assert_eq!(again.hashes, vec![7, 8, 9]);
}

#[test]
fn load_rejects_slot_out_of_range() {
    let parts = vec![(hid(&["a"], None), 0), (hid(&["b"], None), 2)];
    assert_eq!(HashDB::from_parts(parts, vec![1, 2]).err(), Some(LoadError::SlotOutOfRange));
}

#[test]
fn load_rejects_duplicate_name() {
    let parts = vec![(hid(&["a"], Some(1)), 0), (hid(&["a"], Some(1)), 1)];
    assert_eq!(HashDB::from_parts(parts, vec![1, 2]).err(), Some(LoadError::DuplicateName));
}

#[test]
fn name_text() {
    assert_eq!(hid(&["top", "u1", "x"], None).to_string(), "top/u1/x");
    assert_eq!(hid(&["top", "v"], Some(3)).to_string(), "top/v[3]");
    assert_eq!(hid(&["n"], Some(-12)).to_string(), "n[-12]");
    assert_eq!(hid(&[], None).to_string(), "");
}

#[test]
fn matcher_cap() {
    let mut left = Vec::new();
    let mut right = Vec::new();
    for i in 0..35 {
        left.push((hid(&["l", &format!("s{}", i)], None), 0));
        right.push((hid(&["r", &format!("s{}", i)], None), 0));
    }
    let d1 = HashDB::from_parts(left, vec![42]).unwrap();
    let d2 = HashDB::from_parts(right, vec![42]).unwrap();
    let rep = match_dbs(&d1, &d2, 30);
    assert_eq!(rep.total, 1);
    assert_eq!(rep.both, 1);
    assert_eq!(rep.groups.len(), 0);
    let rep = match_dbs(&d1, &d2, 35);
    assert_eq!(rep.groups.len(), 1);
    assert_eq!(rep.groups[0].hash, 42);
    assert_eq!(rep.groups[0].left.len(), 35);
}

#[test]
fn matcher_groups_in_first_occurrence_order() {
    let d1 = HashDB::from_parts(
        vec![(hid(&["a"], None), 0), (hid(&["b"], None), 1), (hid(&["c"], None), 0)],
        vec![5, 6],
    )
    .unwrap();
    let d2 = HashDB::from_parts(vec![(hid(&["x"], None), 0), (hid(&["y"], None), 1)], vec![6, 9]).unwrap();
    let rep = match_dbs(&d1, &d2, 30);
    assert_eq!(rep.total, 3);
    assert_eq!(rep.both, 1);
    assert_eq!(rep.groups.len(), 1);
    let g = &rep.groups[0];
    assert_eq!(g.hash, 6);
    assert_eq!(g.left.iter().map(|h| h.to_string()).collect::<Vec<_>>(), vec!["b"]);
    assert_eq!(g.right.iter().map(|h| h.to_string()).collect::<Vec<_>>(), vec!["x"]);
}

#[test]
fn update_hash_commits_only_real_transitions() {
    let mut h = 0u64;
    BitState { last_index: 0, last_state: 0, cur_state: 1 }.update_hash(&mut h);
    assert_eq!(h, 0);
    BitState { last_index: 3, last_state: 1, cur_state: 1 }.update_hash(&mut h);
    assert_eq!(h, 0);
    BitState { last_index: 1, last_state: 0, cur_state: 1 }.update_hash(&mut h);
    assert_eq!(h, 259);
    BitState { last_index: 2, last_state: 1, cur_state: 0 }.update_hash(&mut h);
    assert_eq!(h, (259u64.wrapping_mul(80_267_270_009).wrapping_add(2)).wrapping_mul(257).wrapping_add(1));
}

#[test]
fn strobe_index_values() {
    assert_eq!(strobe_index(0, 0, 10), 0);
    assert_eq!(strobe_index(100, 100, 10), 0);
    assert_eq!(strobe_index(101, 100, 10), 1);
    assert_eq!(strobe_index(110, 100, 10), 2);
    assert_eq!(strobe_index(u64::MAX, 0, 1), 0);
}

#[test]
fn name_accessors() {
    let owned = hid(&["top", "v"], Some(2));
    assert_eq!(owned.hier(), &["top".to_string(), "v".to_string()][..]);
    assert_eq!(owned.idx(), Some(2));
    let path = vec!["a".to_string()];
    let borrowed = RefHId(&path, None);
    assert_eq!(borrowed.hier(), &path[..]);
    assert_eq!(borrowed.idx(), None);
}
