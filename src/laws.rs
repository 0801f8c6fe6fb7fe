//! Laws of ingestion, proved over the specifications the functions meet.
use crate::db::{db_wf, loaded, separated, DbView};
use crate::fingerprint::TRACE_SEPARATOR;
use vstd::wrapping::u64_specs::wrapping_mul;
use crate::fingerprint::{hash_step, strobe_index_spec, BitState};
use crate::header::{
    bit_count, bits_present, declared, first_bit, header_wf, DeclView, HeaderView, IngestError,
};
use crate::ingest::{
    began, code_count, decls_declared, flushed, ingested, initial_body, value_changed,
    BodyView, Token,
};
use crate::names::lookup;
use crate::scope::{header_decls, ScopeItem};
use vstd::prelude::*;

verus! {

/// Feeding a trace with no declarations and no tokens multiplies every
/// fingerprint by the trace separator and changes nothing else.
pub proof fn lemma_empty_trace(d: DbView, start: u64, period: u64)
    requires
        db_wf(d),
    ensures
        ingested(d, Seq::empty(), Seq::empty(), start, period) == Ok::<DbView, IngestError>(
            DbView { entries: d.entries, hashes: separated(d.hashes) },
        ),
{
    let decls = header_decls(Seq::<ScopeItem>::empty());
    assert(decls.len() == 0);
    assert(code_count(decls) == 0);
    let d1 = DbView { entries: d.entries, hashes: separated(d.hashes) };
    let b = initial_body(d1.hashes);
    assert(flushed(b.hashes, b.states) =~= d1.hashes);
}

/// Two ingestions that start from equal databases and see the same trace
/// and strobe parameters end the same: equal fingerprints, equal names in
/// equal order, or the same refusal.
pub proof fn lemma_deterministic(
    d1: DbView,
    d2: DbView,
    items: Seq<ScopeItem>,
    toks: Seq<Token>,
    start: u64,
    period: u64,
)
    requires
        d1.entries == d2.entries,
        d1.hashes == d2.hashes,
    ensures
        ingested(d1, items, toks, start, period) == ingested(d2, items, toks, start, period),
{
    assert(d1 == d2);
}

/// Several changes of a bit within one strobe period leave the same state
/// and fingerprint as one change to the last value.
pub proof fn lemma_intra_strobe_collapse(s: BitState, h: u64, t: u64, first: u8, last: u8)
    ensures
        s.after_change(t, first).after_change(t, last) == s.after_change(t, last),
        s.after_change(t, first).hash_after_change(s.hash_after_change(h, t), t)
            == s.hash_after_change(h, t),
{
}

/// A timestamp up to the strobe start falls in period 0, and a change in
/// period 0 of a bit that has seen no strobe yet leaves the fingerprint as
/// it is, sets only the current state, and leaves nothing to commit.
pub proof fn lemma_pre_strobe_suppressed(s: BitState, h: u64, t: u64, start: u64, period: u64, bit: u8)
    requires
        s.last_index == 0,
        t <= start,
    ensures
        strobe_index_spec(t, start, period) == 0,
        s.hash_after_change(h, strobe_index_spec(t, start, period)) == h,
        s.after_change(strobe_index_spec(t, start, period), bit) == (BitState { cur_state: bit, ..s }),
        s.after_change(strobe_index_spec(t, start, period), bit).committed(h) == h,
{
}

/// Two slots with equal states and fingerprints that receive the same bit
/// value in a value change still have equal states and fingerprints: the
/// fingerprint depends on the transitions alone, not on the slot.
pub proof fn lemma_same_pattern_same_fingerprint(b: BodyView, base: int, bits: Seq<u8>, s1: int, s2: int)
    requires
        b.hashes.len() == b.states.len(),
        0 <= s1 < b.hashes.len(),
        0 <= s2 < b.hashes.len(),
        b.hashes[s1] == b.hashes[s2],
        b.states[s1] == b.states[s2],
        base <= s1 < base + bits.len(),
        base <= s2 < base + bits.len(),
        bits[s1 - base] == bits[s2 - base],
    ensures
        value_changed(b, base, bits).hashes[s1] == value_changed(b, base, bits).hashes[s2],
        value_changed(b, base, bits).states[s1] == value_changed(b, base, bits).states[s2],
        flushed(value_changed(b, base, bits).hashes, value_changed(b, base, bits).states)[s1]
            == flushed(value_changed(b, base, bits).hashes, value_changed(b, base, bits).states)[s2],
{
}

/// Declaring a name that the database already holds, with a width that
/// fits its range, allocates no slot and adds no name.
pub proof fn lemma_slot_reuse(d: DbView, m: HeaderView, v: DeclView)
    requires
        db_wf(d),
        header_wf(d, m),
        lookup(d.entries, (v.path, first_bit(v.index))) is Some,
    ensures
        declared(d, m, v) matches Ok((d2, _)) ==> d2 == d,
{
}

/// A name already held whose range no code of the current trace owns yet
/// takes a new code without error and without new slots, whatever code it
/// had in earlier traces: ownership is tracked per trace only.
pub proof fn lemma_alias_split(d: DbView, m: HeaderView, v: DeclView, s: usize)
    requires
        db_wf(d),
        header_wf(d, m),
        v.code < m.code_to_slot.len(),
        v.size > 0,
        bit_count(v.index) <= v.size,
        lookup(d.entries, (v.path, first_bit(v.index))) == Some(s),
        s + v.size <= d.hashes.len(),
        bits_present(d.entries, v.path, v.index, s as int),
        m.slot_owner[s as int] is None,
        m.code_to_slot[v.code as int] is None,
    ensures
        declared(d, m, v) matches Ok((d2, _)) && d2 == d,
{
}

/// The header pass of every ingestion starts with no slot owned.
pub proof fn lemma_owners_fresh_per_trace(d: DbView, decls: Seq<DeclView>)
    requires
        code_count(decls) <= usize::MAX,
    ensures
        began(d, decls) == decls_declared(
            DbView { entries: d.entries, hashes: separated(d.hashes) },
            HeaderView {
                code_to_slot: Seq::new(code_count(decls) as nat, |i: int| None::<(usize, usize)>),
                slot_owner: Seq::new(d.hashes.len(), |i: int| None::<u64>),
            },
            decls,
        ),
{
}

/// The state and fingerprint of one bit after a sequence of value changes,
/// each given as (strobe index, new state).
pub open spec fn bit_run(s: BitState, h: u64, evs: Seq<(u64, u8)>) -> (BitState, u64)
    decreases evs.len(),
{
    if evs.len() == 0 {
        (s, h)
    } else {
        let (s1, h1) = bit_run(s, h, evs.drop_last());
        let (t, b) = evs.last();
        (s1.after_change(t, b), s1.hash_after_change(h1, t))
    }
}

/// The transition a state would commit, if any, as (strobe index, state).
pub open spec fn pending(s: BitState) -> Seq<(u64, u8)> {
    if s.last_index != 0 && s.last_state != s.cur_state {
        seq![(s.last_index, s.cur_state)]
    } else {
        Seq::empty()
    }
}

/// The transitions committed while the value changes are applied.
pub open spec fn run_commits(s: BitState, evs: Seq<(u64, u8)>) -> Seq<(u64, u8)>
    decreases evs.len(),
{
    if evs.len() == 0 {
        Seq::empty()
    } else {
        let s1 = bit_run(s, 0, evs.drop_last()).0;
        run_commits(s, evs.drop_last()) + if s1.last_index == evs.last().0 {
            Seq::empty()
        } else {
            pending(s1)
        }
    }
}

/// Every transition committed for the value changes, the final flush
/// included.
pub open spec fn transitions(s: BitState, evs: Seq<(u64, u8)>) -> Seq<(u64, u8)> {
    run_commits(s, evs) + pending(bit_run(s, 0, evs).0)
}

/// A fingerprint with the transitions folded in, in order.
pub open spec fn fold_commits(h: u64, cs: Seq<(u64, u8)>) -> u64
    decreases cs.len(),
{
    if cs.len() == 0 {
        h
    } else {
        hash_step(fold_commits(h, cs.drop_last()), cs.last().0, cs.last().1)
    }
}

/// The fingerprint of a bit after the value changes and the final flush.
pub open spec fn fingerprint_of(s: BitState, h: u64, evs: Seq<(u64, u8)>) -> u64 {
    bit_run(s, h, evs).0.committed(bit_run(s, h, evs).1)
}

proof fn lemma_run_state_ignores_hash(s: BitState, h: u64, evs: Seq<(u64, u8)>)
    ensures
        bit_run(s, h, evs).0 == bit_run(s, 0, evs).0,
    decreases evs.len(),
{
    if evs.len() > 0 {
        lemma_run_state_ignores_hash(s, h, evs.drop_last());
    }
}

proof fn lemma_commit_is_fold(s: BitState, h: u64)
    ensures
        s.committed(h) == fold_commits(h, pending(s)),
{
    let p = pending(s);
    if s.last_index != 0 && s.last_state != s.cur_state {
        assert(p.len() == 1);
        assert(p.drop_last() =~= Seq::<(u64, u8)>::empty());
        assert(fold_commits(h, p.drop_last()) == h);
        assert(p.last() == (s.last_index, s.cur_state));
    } else {
        assert(p.len() == 0);
    }
}

proof fn lemma_fold_append(h: u64, cs: Seq<(u64, u8)>, ds: Seq<(u64, u8)>)
    ensures
        fold_commits(h, cs + ds) == fold_commits(fold_commits(h, cs), ds),
    decreases ds.len(),
{
    if ds.len() == 0 {
        assert(cs + ds =~= cs);
    } else {
        assert((cs + ds).drop_last() =~= cs + ds.drop_last());
        lemma_fold_append(h, cs, ds.drop_last());
    }
}

proof fn lemma_run_hash_is_fold(s: BitState, h: u64, evs: Seq<(u64, u8)>)
    ensures
        bit_run(s, h, evs).1 == fold_commits(h, run_commits(s, evs)),
    decreases evs.len(),
{
    if evs.len() > 0 {
        let pre = evs.drop_last();
        lemma_run_hash_is_fold(s, h, pre);
        lemma_run_state_ignores_hash(s, h, pre);
        let s1 = bit_run(s, 0, pre).0;
        let h1 = bit_run(s, h, pre).1;
        let extra = if s1.last_index == evs.last().0 {
            Seq::<(u64, u8)>::empty()
        } else {
            pending(s1)
        };
        lemma_fold_append(h, run_commits(s, pre), extra);
        lemma_commit_is_fold(s1, h1);
        assert(fold_commits(h1, Seq::<(u64, u8)>::empty()) == h1);
    }
}

/// A bit's fingerprint is its starting fingerprint with the committed
/// transitions folded in, in order: it depends on nothing else.
pub proof fn lemma_fingerprint_is_fold_of_transitions(s: BitState, h: u64, evs: Seq<(u64, u8)>)
    ensures
        fingerprint_of(s, h, evs) == fold_commits(h, transitions(s, evs)),
{
    lemma_run_hash_is_fold(s, h, evs);
    lemma_run_state_ignores_hash(s, h, evs);
    lemma_commit_is_fold(bit_run(s, h, evs).0, bit_run(s, h, evs).1);
    lemma_fold_append(h, run_commits(s, evs), pending(bit_run(s, 0, evs).0));
}

/// Two bits that start alike and whose value changes commit the same
/// transitions end with equal fingerprints.
pub proof fn lemma_same_transitions_same_fingerprint(
    s: BitState,
    h: u64,
    evs1: Seq<(u64, u8)>,
    evs2: Seq<(u64, u8)>,
)
    requires
        transitions(s, evs1) == transitions(s, evs2),
    ensures
        fingerprint_of(s, h, evs1) == fingerprint_of(s, h, evs2),
{
    lemma_fingerprint_is_fold_of_transitions(s, h, evs1);
    lemma_fingerprint_is_fold_of_transitions(s, h, evs2);
}

/// The fingerprints after a step that keeps the first `n` values and
/// appends only zeros.
pub open spec fn zero_extended(before: Seq<u64>, after: Seq<u64>) -> bool {
    &&& after.len() >= before.len()
    &&& forall|i: int| 0 <= i < before.len() ==> #[trigger] after[i] == before[i]
    &&& forall|i: int| before.len() <= i < after.len() ==> #[trigger] after[i] == 0
}

/// A declaration keeps every fingerprint and appends only zeroed slots.
pub proof fn lemma_declared_zero_extends(d: DbView, m: HeaderView, v: DeclView)
    ensures
        declared(d, m, v) matches Ok((d2, _)) ==> zero_extended(d.hashes, d2.hashes),
{
}

/// A header pass keeps every fingerprint and appends only zeroed slots.
pub proof fn lemma_header_pass_zero_extends(d: DbView, m: HeaderView, decls: Seq<DeclView>)
    ensures
        decls_declared(d, m, decls) matches Ok((d2, _)) ==> zero_extended(d.hashes, d2.hashes),
    decreases decls.len(),
{
    if decls.len() > 0 {
        lemma_header_pass_zero_extends(d, m, decls.drop_last());
        match decls_declared(d, m, decls.drop_last()) {
            Ok((d1, m1)) => {
                lemma_declared_zero_extends(d1, m1, decls.last());
            },
            Err(_) => {},
        }
    }
}

/// A trace with a header and no body tokens multiplies every existing
/// fingerprint by the trace separator, and every slot it adds holds 0.
pub proof fn lemma_header_only_trace(d: DbView, items: Seq<ScopeItem>, start: u64, period: u64)
    ensures
        ingested(d, items, Seq::empty(), start, period) matches Ok(d2) ==> {
            &&& d2.hashes.len() >= d.hashes.len()
            &&& forall|i: int|
                0 <= i < d.hashes.len() ==> #[trigger] d2.hashes[i] == wrapping_mul(d.hashes[i], TRACE_SEPARATOR)
            &&& forall|i: int| d.hashes.len() <= i < d2.hashes.len() ==> #[trigger] d2.hashes[i] == 0
        },
{
    let decls = header_decls(items);
    if code_count(decls) <= usize::MAX {
        let d1 = DbView { entries: d.entries, hashes: separated(d.hashes) };
        let m1 = HeaderView {
            code_to_slot: Seq::new(code_count(decls) as nat, |i: int| None::<(usize, usize)>),
            slot_owner: Seq::new(d.hashes.len(), |i: int| None::<u64>),
        };
        lemma_header_pass_zero_extends(d1, m1, decls);
        match decls_declared(d1, m1, decls) {
            Ok((d2, m2)) => {
                let b = initial_body(d2.hashes);
                assert(flushed(b.hashes, b.states) =~= d2.hashes);
            },
            Err(_) => {},
        }
    }
}

/// Storing a well-formed database and loading it back, then feeding a
/// trace, ends exactly as feeding the trace to the database itself.
pub proof fn lemma_reload_then_feed(d: DbView, items: Seq<ScopeItem>, toks: Seq<Token>, start: u64, period: u64)
    requires
        db_wf(d),
    ensures
        loaded(d.entries, d.hashes) matches Ok(d2) && ingested(d2, items, toks, start, period) == ingested(
            d,
            items,
            toks,
            start,
            period,
        ),
{
}

} // verus!
