use simalign::fingerprint::{HASH_MUL_A, HASH_MUL_B, TRACE_SEPARATOR};
use simalign::{HId, HashDB, IngestError, ReferenceIndex, Scope, ScopeItem, Token, Var};

fn var(code: u64, size: u32, name: &str, index: Option<ReferenceIndex>) -> ScopeItem {
    ScopeItem::Var(Var { size, code, reference: name.to_string(), index })
}

fn top(children: Vec<ScopeItem>) -> Vec<ScopeItem> {
    vec![ScopeItem::Scope(Scope { identifier: "top".to_string(), children })]
}

fn value(code: u64, bits: &[u8]) -> Token {
    Token::Value { code, bits: bits.to_vec() }
}

fn step(h: u64, index: u64, state: u8) -> u64 {
    h.wrapping_mul(HASH_MUL_A)
        .wrapping_add(index)
        .wrapping_mul(HASH_MUL_B)
        .wrapping_add(state as u64 + 1)
}

fn names(db: &HashDB) -> Vec<(String, usize)> {
    db.entries().iter().map(|(h, s)| (h.to_string(), *s)).collect()
}

#[test]
fn single_bit_single_trace() {
    let mut db = HashDB::new();
    let items = top(vec![var(1, 1, "x", None)]);
    let toks = vec![
        Token::Timestamp(0),
        Token::Timestamp(10),
        value(1, &[1]),
        Token::Timestamp(20),
        value(1, &[0]),
        Token::Timestamp(30),
        value(1, &[1]),
    ];
    assert_eq!(db.feed_vcd(&items, &toks, 0, 10), Ok(()));
    // t = 10, 20, 30 fall in strobe periods 2, 3, 4
    let mut h = 0u64;
    h = step(h, 2, 1);
    h = step(h, 3, 0);
    h = step(h, 4, 1);
    assert_eq!(db.hashes, vec![h]);
    assert_eq!(names(&db), vec![("top/x".to_string(), 0)]);
}

#[test]
fn intra_strobe_collapse() {
    let mut db = HashDB::new();
    let items = top(vec![var(1, 1, "x", None)]);
    let toks = vec![
        Token::Timestamp(10),
        value(1, &[1]),
        Token::Timestamp(11),
        value(1, &[0]),
        Token::Timestamp(12),
        value(1, &[1]),
    ];
    assert_eq!(db.feed_vcd(&items, &toks, 0, 10), Ok(()));
    assert_eq!(db.hashes, vec![(0u64 * HASH_MUL_A + 2) * HASH_MUL_B + 2]);
    assert_eq!(db.hashes, vec![516]);
}

#[test]
fn pre_strobe_changes_are_suppressed() {
    let mut db = HashDB::new();
    let items = top(vec![var(1, 1, "x", None)]);
    let toks = vec![
        Token::Timestamp(0),
        value(1, &[1]),
        Token::Timestamp(50),
        value(1, &[0]),
        Token::Timestamp(100),
        value(1, &[1]),
    ];
    assert_eq!(db.feed_vcd(&items, &toks, 100, 10), Ok(()));
    assert_eq!(db.hashes, vec![0]);
}

#[test]
fn multi_bit_vector() {
    let mut db = HashDB::new();
    let items = top(vec![var(2, 4, "v", Some(ReferenceIndex::Range(3, 0)))]);
    let toks = vec![Token::Timestamp(5), value(2, &[1, 0, 1, 0])];
    assert_eq!(db.feed_vcd(&items, &toks, 0, 10), Ok(()));
    assert_eq!(
        names(&db),
        vec![
            ("top/v[0]".to_string(), 3),
            ("top/v[1]".to_string(), 2),
            ("top/v[2]".to_string(), 1),
            ("top/v[3]".to_string(), 0),
        ]
    );
    let one = step(0, 1, 1);
    assert_eq!(db.hashes, vec![one, 0, one, 0]);
}

#[test]
fn ascending_range_keeps_order() {
    let mut db = HashDB::new();
    let items = top(vec![var(2, 3, "w", Some(ReferenceIndex::Range(0, 2)))]);
    assert_eq!(db.feed_vcd(&items, &vec![], 0, 10), Ok(()));
    assert_eq!(
        names(&db),
        vec![("top/w[0]".to_string(), 0), ("top/w[1]".to_string(), 1), ("top/w[2]".to_string(), 2)]
    );
}

#[test]
fn two_trace_extension() {
    let mut db = HashDB::new();
    let t1 = top(vec![var(1, 1, "x", None)]);
    let toks = vec![Token::Timestamp(10), value(1, &[1])];
    assert_eq!(db.feed_vcd(&t1, &toks, 0, 10), Ok(()));
    let h1 = db.hashes[0];
    assert_ne!(h1, 0);
    let t2 = top(vec![var(1, 1, "x", None), var(2, 1, "y", None)]);
    assert_eq!(db.feed_vcd(&t2, &vec![], 0, 10), Ok(()));
    assert_eq!(db.hashes, vec![h1.wrapping_mul(TRACE_SEPARATOR), 0]);
}

#[test]
fn empty_trace_multiplies_by_separator() {
    let mut db = HashDB::new();
    let t1 = top(vec![var(1, 2, "v", Some(ReferenceIndex::Range(1, 0)))]);
    let toks = vec![Token::Timestamp(10), value(1, &[1, 1]), Token::Timestamp(30), value(1, &[0, 1])];
    assert_eq!(db.feed_vcd(&t1, &toks, 0, 10), Ok(()));
    let before = db.hashes.clone();
    assert_eq!(db.feed_vcd(&vec![], &vec![], 0, 10), Ok(()));
    let expected: Vec<u64> = before.iter().map(|h| h.wrapping_mul(100_003)).collect();
    assert_eq!(db.hashes, expected);
}

#[test]
fn same_trace_twice_reuses_slots() {
    let mut db = HashDB::new();
    let items = top(vec![var(1, 4, "v", Some(ReferenceIndex::Range(3, 0))), var(2, 1, "x", None)]);
    assert_eq!(db.feed_vcd(&items, &vec![], 0, 10), Ok(()));
    assert_eq!(db.hashes.len(), 5);
    assert_eq!(db.feed_vcd(&items, &vec![], 0, 10), Ok(()));
    assert_eq!(db.hashes.len(), 5);
    assert_eq!(db.entries().len(), 5);
}

#[test]
fn independent_builds_agree() {
    let items = top(vec![var(1, 1, "x", None), var(2, 2, "v", Some(ReferenceIndex::Range(1, 0)))]);
    let toks = vec![Token::Timestamp(10), value(1, &[1]), value(2, &[0, 1]), Token::Timestamp(20), value(2, &[1, 1])];
    let mut a = HashDB::new();
    let mut b = HashDB::new();
    assert_eq!(a.feed_vcd(&items, &toks, 0, 10), Ok(()));
    assert_eq!(b.feed_vcd(&items, &toks, 0, 10), Ok(()));
    assert_eq!(a.hashes, b.hashes);
    assert_eq!(names(&a), names(&b));
}

#[test]
fn alias_in_one_trace_shares_slots() {
    let mut db = HashDB::new();
    let items = vec![
        ScopeItem::Scope(Scope { identifier: "top".to_string(), children: vec![var(1, 1, "a", None)] }),
        ScopeItem::Scope(Scope { identifier: "sub".to_string(), children: vec![var(1, 1, "b", None)] }),
    ];
    assert_eq!(db.feed_vcd(&items, &vec![], 0, 10), Ok(()));
    assert_eq!(names(&db), vec![("top/a".to_string(), 0), ("sub/b".to_string(), 0)]);
    assert_eq!(db.hashes.len(), 1);
}

#[test]
fn alias_split_across_traces_is_refused_when_names_share_a_slot() {
    let mut db = HashDB::new();
    let t1 = top(vec![var(1, 1, "a", None), var(1, 1, "b", None)]);
    assert_eq!(db.feed_vcd(&t1, &vec![], 0, 10), Ok(()));
    let t2 = top(vec![var(1, 1, "a", None), var(2, 1, "b", None)]);
    assert_eq!(db.feed_vcd(&t2, &vec![], 0, 10), Err(IngestError::AliasBreak));
}

#[test]
fn new_code_for_known_name_allocates_nothing() {
    let mut db = HashDB::new();
    let t1 = top(vec![var(1, 1, "a", None)]);
    assert_eq!(db.feed_vcd(&t1, &vec![], 0, 10), Ok(()));
    let t2 = top(vec![var(7, 1, "a", None)]);
    assert_eq!(db.feed_vcd(&t2, &vec![Token::Timestamp(10), value(7, &[1])], 0, 10), Ok(()));
    assert_eq!(db.hashes.len(), 1);
    assert_eq!(db.hashes[0], step(0, 2, 1));
}

#[test]
fn width_mismatch_is_refused() {
    let mut db = HashDB::new();
    let t1 = top(vec![var(1, 2, "v", Some(ReferenceIndex::Range(1, 0)))]);
    assert_eq!(db.feed_vcd(&t1, &vec![], 0, 10), Ok(()));
    let t2 = top(vec![var(1, 3, "v", Some(ReferenceIndex::Range(1, 0)))]);
    assert_eq!(db.feed_vcd(&t2, &vec![], 0, 10), Err(IngestError::WidthMismatch));
    let mut fresh = HashDB::new();
    let wide = top(vec![var(1, 2, "w", Some(ReferenceIndex::Range(3, 0)))]);
    assert_eq!(fresh.feed_vcd(&wide, &vec![], 0, 10), Err(IngestError::WidthMismatch));
}

#[test]
fn bit_count_mismatch_is_refused() {
    let mut db = HashDB::new();
    let items = top(vec![var(1, 2, "v", Some(ReferenceIndex::Range(1, 0)))]);
    let toks = vec![Token::Timestamp(10), value(1, &[1])];
    assert_eq!(db.feed_vcd(&items, &toks, 0, 10), Err(IngestError::BitCountMismatch));
}

#[test]
fn unknown_code_is_refused() {
    let mut db = HashDB::new();
    let items = top(vec![var(1, 1, "x", None)]);
    let toks = vec![Token::Timestamp(10), value(5, &[1])];
    assert_eq!(db.feed_vcd(&items, &toks, 0, 10), Err(IngestError::UnknownCode));
}

#[test]
fn oversized_code_is_refused() {
    let mut db = HashDB::new();
    let items = top(vec![var(u64::MAX, 1, "x", None)]);
    assert_eq!(db.feed_vcd(&items, &vec![], 0, 10), Err(IngestError::Capacity));
}

#[test]
fn comments_and_nested_scopes() {
    let items = vec![ScopeItem::Scope(Scope {
        identifier: "top".to_string(),
        children: vec![
            ScopeItem::Comment("c".to_string()),
            ScopeItem::Scope(Scope { identifier: "u1".to_string(), children: vec![var(3, 1, "q", Some(ReferenceIndex::BitSelect(5)))] }),
            var(4, 1, "r", None),
        ],
    })];
    let decls = simalign::enumerate_vars(&items);
    assert_eq!(decls.len(), 2);
    assert_eq!(decls[0].path, vec!["top".to_string(), "u1".to_string(), "q".to_string()]);
    assert_eq!(decls[0].index, Some(ReferenceIndex::BitSelect(5)));
    assert_eq!(decls[1].path, vec!["top".to_string(), "r".to_string()]);
    let mut db = HashDB::new();
    assert_eq!(db.feed_vcd(&items, &vec![], 0, 1), Ok(()));
    assert_eq!(names(&db), vec![("top/u1/q[5]".to_string(), 0), ("top/r".to_string(), 1)]);
}

#[test]
fn streaming_steps_match_whole_feed() {
    let items = top(vec![var(1, 1, "x", None)]);
    let toks = vec![Token::Timestamp(10), value(1, &[1]), Token::Timestamp(20), value(1, &[0])];
    let mut whole = HashDB::new();
    assert_eq!(whole.feed_vcd(&items, &toks, 0, 10), Ok(()));
    let mut db = HashDB::new();
    let decls = simalign::enumerate_vars(&items);
    let mut ing = db.begin_trace(&decls, 0, 10).unwrap();
    for t in toks.iter() {
        assert_eq!(ing.apply(&mut db, t), Ok(()));
    }
    ing.finish(&mut db);
    assert_eq!(db.hashes, whole.hashes);
    assert_eq!(db.hashes, vec![step(step(0, 2, 1), 3, 0)]);
}

#[test]
fn same_transitions_same_fingerprint() {
    let mut db = HashDB::new();
    let items = top(vec![var(1, 1, "x", None), var(2, 1, "y", None)]);
    let toks = vec![
        Token::Timestamp(10),
        value(1, &[1]),
        value(2, &[0]),
        value(2, &[1]),
        Token::Timestamp(25),
        value(1, &[0]),
        value(2, &[1]),
        value(2, &[0]),
    ];
    assert_eq!(db.feed_vcd(&items, &toks, 0, 10), Ok(()));
    assert_eq!(db.hashes[0], step(step(0, 2, 1), 3, 0));
    assert_eq!(db.hashes[0], db.hashes[1]);
}

#[test]
fn slots_stay_in_range() {
    let mut db = HashDB::new();
    let t1 = top(vec![var(1, 4, "v", Some(ReferenceIndex::Range(3, 0))), var(2, 1, "x", None)]);
    assert_eq!(db.feed_vcd(&t1, &vec![], 0, 10), Ok(()));
    let t2 = top(vec![var(3, 2, "w", Some(ReferenceIndex::Range(0, 1))), var(1, 4, "v", Some(ReferenceIndex::Range(3, 0)))]);
    assert_eq!(db.feed_vcd(&t2, &vec![], 0, 10), Ok(()));
    assert_eq!(db.hashes.len(), 7);
    for (_, slot) in db.entries() {
        assert!(slot < db.hashes.len());
    }
}
