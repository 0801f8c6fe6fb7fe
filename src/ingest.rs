//! The body pass: value-change tokens drive the per-bit state machines and
//! fold committed transitions into the database's fingerprints.
use crate::db::{db_wf, DbView, HashDB};
use crate::fingerprint::{strobe_index, strobe_index_spec, BitState};
use crate::db::separated;
use crate::header::{decl_views, declared, header_wf, DeclView, HeaderMap, HeaderView, IngestError, VarDecl};
use crate::scope::{enumerate_vars, header_decls, ScopeItem};
use vstd::prelude::*;

verus! {

/// A token of a trace body.
pub enum Token {
    /// A new simulation time.
    Timestamp(u64),
    /// New value of the variable with this code, one state byte per bit,
    /// most significant bit first.
    Value { code: u64, bits: Vec<u8> },
}

/// The state of one ingestion after its header pass.
pub struct Ingestion {
    /// Code to slot range, from the header pass.
    pub header: HeaderMap,
    /// One state machine per slot.
    pub states: Vec<BitState>,
    /// Strobe index of the latest timestamp.
    pub cur_strobe: u64,
    pub strobe_start: u64,
    pub strobe_period: u64,
}

/// The part of an ingestion that the body pass changes.
pub struct BodyView {
    pub hashes: Seq<u64>,
    pub states: Seq<BitState>,
    pub cur_strobe: u64,
}

/// Slots `base ..` take one value change each, bit `i` of `bits` going to
/// slot `base + i`.
pub open spec fn value_changed(b: BodyView, base: int, bits: Seq<u8>) -> BodyView {
    BodyView {
        hashes: Seq::new(
            b.hashes.len(),
            |s: int|
                if base <= s < base + bits.len() {
                    b.states[s].hash_after_change(b.hashes[s], b.cur_strobe)
                } else {
                    b.hashes[s]
                },
        ),
        states: Seq::new(
            b.states.len(),
            |s: int|
                if base <= s < base + bits.len() {
                    b.states[s].after_change(b.cur_strobe, bits[s - base])
                } else {
                    b.states[s]
                },
        ),
        cur_strobe: b.cur_strobe,
    }
}

/// The body after one token, or why the token is refused.
pub open spec fn token_applied(
    b: BodyView,
    code_to_slot: Seq<Option<(usize, usize)>>,
    start: u64,
    period: u64,
    tok: Token,
) -> Result<BodyView, IngestError> {
    match tok {
        Token::Timestamp(t) => Ok(
            BodyView { cur_strobe: strobe_index_spec(t, start, period), ..b },
        ),
        Token::Value { code, bits } => if code >= code_to_slot.len() || code_to_slot[code as int] is None {
            Err(IngestError::UnknownCode)
        } else {
            let (base, width) = code_to_slot[code as int]->0;
            if bits@.len() != width {
                Err(IngestError::BitCountMismatch)
            } else {
                Ok(value_changed(b, base as int, bits@))
            }
        },
    }
}

/// The body after a sequence of tokens, or the first refusal.
pub open spec fn tokens_applied(
    b: BodyView,
    code_to_slot: Seq<Option<(usize, usize)>>,
    start: u64,
    period: u64,
    toks: Seq<Token>,
) -> Result<BodyView, IngestError>
    decreases toks.len(),
{
    if toks.len() == 0 {
        Ok(b)
    } else {
        match tokens_applied(b, code_to_slot, start, period, toks.drop_last()) {
            Err(e) => Err(e),
            Ok(b1) => token_applied(b1, code_to_slot, start, period, toks.last()),
        }
    }
}

/// The fingerprints after every pending transition is committed.
pub open spec fn flushed(hashes: Seq<u64>, states: Seq<BitState>) -> Seq<u64> {
    Seq::new(hashes.len(), |s: int| states[s].committed(hashes[s]))
}

impl Ingestion {
    /// What the body pass has reached, over the given fingerprints.
    pub open spec fn body(&self, hashes: Seq<u64>) -> BodyView {
        BodyView { hashes, states: self.states@, cur_strobe: self.cur_strobe }
    }

    /// The ingestion fits the database it runs on.
    pub open spec fn fits(&self, d: DbView) -> bool {
        &&& db_wf(d)
        &&& header_wf(d, self.header@)
        &&& self.states@.len() == d.hashes.len()
        &&& self.strobe_period > 0
    }

    /// Applies one body token to the database.
    pub fn apply(&mut self, db: &mut HashDB, tok: &Token) -> (r: Result<(), IngestError>)
        requires
            old(self).fits(old(db)@),
        ensures
            match token_applied(
                old(self).body(old(db)@.hashes),
                old(self).header@.code_to_slot,
                old(self).strobe_start,
                old(self).strobe_period,
                *tok,
            ) {
                Ok(b) => r is Ok && final(self).body(final(db)@.hashes) == b,
                Err(e) => r == Err::<(), IngestError>(e),
            },
            final(db)@.entries == old(db)@.entries,
            final(db)@.hashes.len() == old(db)@.hashes.len(),
            final(self).header == old(self).header,
            final(self).strobe_start == old(self).strobe_start,
            final(self).strobe_period == old(self).strobe_period,
            db_wf(final(db)@),
            r is Ok ==> final(self).fits(final(db)@),
    {
        match tok {
            Token::Timestamp(t) => {
                self.cur_strobe = strobe_index(*t, self.strobe_start, self.strobe_period);
                Ok(())
            },
            Token::Value { code, bits } => {
                if *code >= self.header.code_to_slot.len() as u64 {
                    return Err(IngestError::UnknownCode);
                }
                let (base, width) = match self.header.code_to_slot[*code as usize] {
                    None => {
                        return Err(IngestError::UnknownCode);
                    },
                    Some(r) => r,
                };
                if bits.len() != width {
                    return Err(IngestError::BitCountMismatch);
                }
                assert(base + width <= db.hashes@.len()) by {
                    let c = *code as int;
                    assert(self.header@.code_to_slot[c] is Some);
                }
                let ghost b0 = self.body(db@.hashes);
                let t = self.cur_strobe;
                let hl = db.hashes.len();
                let mut i: usize = 0;
                while i < width
                    invariant
                        b0 == old(self).body(old(db)@.hashes),
                        base + width <= db.hashes@.len(),
                        bits@.len() == width,
                        i <= width,
                        t == b0.cur_strobe == self.cur_strobe,
                        self.header == old(self).header,
                        self.strobe_start == old(self).strobe_start,
                        self.strobe_period == old(self).strobe_period,
                        db.name2id == old(db).name2id,
                        db.hashes@.len() == b0.hashes.len() == hl,
                        self.states@.len() == b0.states.len() == b0.hashes.len(),
                        forall|s: int|
                            0 <= s < db.hashes@.len() ==> #[trigger] db.hashes@[s] == (if base <= s < base + i {
                                b0.states[s].hash_after_change(b0.hashes[s], t)
                            } else {
                                b0.hashes[s]
                            }),
                        forall|s: int|
                            0 <= s < self.states@.len() ==> #[trigger] self.states@[s] == (if base <= s < base
                                + i {
                                b0.states[s].after_change(t, bits@[s - base])
                            } else {
                                b0.states[s]
                            }),
                    decreases width - i,
                {
                    let k = base + i;
                    let mut st = self.states[k];
                    let mut h = db.hashes[k];
                    st.change(&mut h, t, bits[i]);
                    self.states.set(k, st);
                    db.hashes.set(k, h);
                    i += 1;
                }
                assert(db.hashes@ =~= value_changed(b0, base as int, bits@).hashes);
                assert(self.states@ =~= value_changed(b0, base as int, bits@).states);
                Ok(())
            },
        }
    }

    /// Commits every bit's pending transition; ends the ingestion.
    pub fn finish(self, db: &mut HashDB)
        requires
            self.fits(old(db)@),
        ensures
            final(db)@ == (DbView {
                entries: old(db)@.entries,
                hashes: flushed(old(db)@.hashes, self.states@),
            }),
            db_wf(final(db)@),
    {
        let n = db.hashes.len();
        let mut i: usize = 0;
        while i < n
            invariant
                n == db.hashes@.len() == old(db)@.hashes.len() == self.states@.len(),
                db.name2id == old(db).name2id,
                i <= n,
                forall|s: int|
                    0 <= s < n ==> #[trigger] db.hashes@[s] == (if s < i {
                        self.states@[s].committed(old(db)@.hashes[s])
                    } else {
                        old(db)@.hashes[s]
                    }),
            decreases n - i,
        {
            let mut h = db.hashes[i];
            self.states[i].update_hash(&mut h);
            db.hashes.set(i, h);
            i += 1;
        }
        assert(db.hashes@ =~= flushed(old(db)@.hashes, self.states@));
    }
}

/// One more than the largest code declared, 0 when none is.
pub open spec fn code_count(decls: Seq<DeclView>) -> int
    decreases decls.len(),
{
    if decls.len() == 0 {
        0
    } else {
        let c = code_count(decls.drop_last());
        if decls.last().code + 1 > c {
            decls.last().code + 1
        } else {
            c
        }
    }
}

/// The database and header map after declaring each of `decls` in order,
/// or the first refusal.
pub open spec fn decls_declared(d: DbView, m: HeaderView, decls: Seq<DeclView>) -> Result<
    (DbView, HeaderView),
    IngestError,
>
    decreases decls.len(),
{
    if decls.len() == 0 {
        Ok((d, m))
    } else {
        match decls_declared(d, m, decls.drop_last()) {
            Err(e) => Err(e),
            Ok((d1, m1)) => declared(d1, m1, decls.last()),
        }
    }
}

/// The start of an ingestion: the separator applied to every fingerprint,
/// then the header pass over `decls` with a fresh header map.
pub open spec fn began(d: DbView, decls: Seq<DeclView>) -> Result<(DbView, HeaderView), IngestError> {
    if code_count(decls) > usize::MAX {
        Err(IngestError::Capacity)
    } else {
        decls_declared(
            DbView { entries: d.entries, hashes: separated(d.hashes) },
            HeaderView {
                code_to_slot: Seq::new(code_count(decls) as nat, |i: int| None::<(usize, usize)>),
                slot_owner: Seq::new(d.hashes.len(), |i: int| None::<u64>),
            },
            decls,
        )
    }
}

/// The state machines of a body pass over `n` slots, before any token.
pub open spec fn initial_body(hashes: Seq<u64>) -> BodyView {
    BodyView {
        hashes,
        states: Seq::new(hashes.len(), |i: int| BitState::initial()),
        cur_strobe: 0,
    }
}

/// The database after a whole trace, or why the trace is refused.
pub open spec fn ingested(
    d: DbView,
    items: Seq<ScopeItem>,
    toks: Seq<Token>,
    start: u64,
    period: u64,
) -> Result<DbView, IngestError> {
    match began(d, header_decls(items)) {
        Err(e) => Err(e),
        Ok((d2, m2)) => match tokens_applied(initial_body(d2.hashes), m2.code_to_slot, start, period, toks) {
            Err(e) => Err(e),
            Ok(b) => Ok(DbView { entries: d2.entries, hashes: flushed(b.hashes, b.states) }),
        },
    }
}

impl HashDB {
    /// Starts an ingestion: applies the trace separator and runs the header
    /// pass over the declarations.
    #[verifier::loop_isolation(false)]
    pub fn begin_trace(
        &mut self,
        decls: &Vec<VarDecl>,
        strobe_start: u64,
        strobe_period: u64,
    ) -> (r: Result<Ingestion, IngestError>)
        requires
            db_wf(old(self)@),
            strobe_period > 0,
        ensures
            match began(old(self)@, decl_views(decls@)) {
                Ok((d, m)) => r matches Ok(ing) && final(self)@ == d && ing.header@ == m
                    && ing.body(d.hashes) == initial_body(d.hashes) && ing.strobe_start == strobe_start
                    && ing.strobe_period == strobe_period && ing.fits(d),
                Err(e) => r matches Err(e2) && e2 == e,
            },
            db_wf(final(self)@),
    {
        let ghost dv = decl_views(decls@);
        let mut count: usize = 0;
        let mut i: usize = 0;
        while i < decls.len()
            invariant
                i <= decls@.len(),
                dv == decl_views(decls@),
                count == code_count(dv.subrange(0, i as int)),
            decreases decls@.len() - i,
        {
            assert(dv.subrange(0, i as int + 1).drop_last() =~= dv.subrange(0, i as int));
            let code = decls[i].code;
            if code >= usize::MAX as u64 {
                proof {
                    lemma_code_count_bound(dv, i as int + 1);
                }
                assert(dv.subrange(0, i as int + 1).last() == dv[i as int]);
                assert(code_count(dv) > usize::MAX);
                return Err(IngestError::Capacity);
            }
            if code as usize + 1 > count {
                count = code as usize + 1;
            }
            i += 1;
        }
        assert(dv.subrange(0, i as int) =~= dv);
        self.separate();
        let mut code_to_slot: Vec<Option<(usize, usize)>> = Vec::new();
        let mut j: usize = 0;
        while j < count
            invariant
                j <= count,
                code_to_slot@ =~= Seq::new(j as nat, |i: int| None::<(usize, usize)>),
            decreases count - j,
        {
            code_to_slot.push(None);
            j += 1;
        }
        let n = self.hashes.len();
        let mut slot_owner: Vec<Option<u64>> = Vec::new();
        let mut j: usize = 0;
        while j < n
            invariant
                j <= n,
                slot_owner@ =~= Seq::new(j as nat, |i: int| None::<u64>),
            decreases n - j,
        {
            slot_owner.push(None);
            j += 1;
        }
        let mut hm = HeaderMap { code_to_slot, slot_owner };
        let ghost d1 = self@;
        let ghost m1 = hm@;
        assert(db_wf(d1));
        assert(began(old(self)@, dv) == decls_declared(d1, m1, dv));
        let mut i: usize = 0;
        while i < decls.len()
            invariant
                i <= decls@.len(),
                dv == decl_views(decls@),
                decls_declared(d1, m1, dv.subrange(0, i as int)) == Ok::<(DbView, HeaderView), IngestError>(
                    (self@, hm@),
                ),
                db_wf(self@),
                header_wf(self@, hm@),
            decreases decls@.len() - i,
        {
            assert(dv.subrange(0, i as int + 1).drop_last() =~= dv.subrange(0, i as int));
            assert(dv.subrange(0, i as int + 1).last() == decls@[i as int]@);
            match self.declare(&mut hm, &decls[i]) {
                Err(e) => {
                    proof {
                        lemma_decls_error_sticks(d1, m1, dv, i as int + 1);
                    }
                    return Err(e);
                },
                Ok(()) => {},
            }
            i += 1;
        }
        assert(dv.subrange(0, i as int) =~= dv);
        let n = self.hashes.len();
        let mut states: Vec<BitState> = Vec::new();
        let mut j: usize = 0;
        while j < n
            invariant
                j <= n,
                states@ =~= Seq::new(j as nat, |i: int| BitState::initial()),
            decreases n - j,
        {
            states.push(BitState::new());
            j += 1;
        }
        Ok(Ingestion { header: hm, states, cur_strobe: 0, strobe_start, strobe_period })
    }

    /// Feeds one trace, its header's scope tree and its body tokens, to the
    /// database and updates every fingerprint.
    #[verifier::loop_isolation(false)]
    pub fn feed_vcd(
        &mut self,
        items: &Vec<ScopeItem>,
        tokens: &Vec<Token>,
        strobe_start: u64,
        strobe_period: u64,
    ) -> (r: Result<(), IngestError>)
        requires
            db_wf(old(self)@),
            strobe_period > 0,
        ensures
            match ingested(old(self)@, items@, tokens@, strobe_start, strobe_period) {
                Ok(d) => r is Ok && final(self)@ == d,
                Err(e) => r == Err::<(), IngestError>(e),
            },
            db_wf(final(self)@),
    {
        let decls = enumerate_vars(items);
        let mut ing = match self.begin_trace(&decls, strobe_start, strobe_period) {
            Err(e) => {
                return Err(e);
            },
            Ok(ing) => ing,
        };
        let ghost d2 = self@;
        let ghost c2s = ing.header@.code_to_slot;
        let mut i: usize = 0;
        while i < tokens.len()
            invariant
                i <= tokens@.len(),
                ing.fits(self@),
                self@.entries == d2.entries,
                ing.header@.code_to_slot == c2s,
                ing.strobe_start == strobe_start,
                ing.strobe_period == strobe_period,
                tokens_applied(
                    initial_body(d2.hashes),
                    c2s,
                    strobe_start,
                    strobe_period,
                    tokens@.subrange(0, i as int),
                ) == Ok::<BodyView, IngestError>(ing.body(self@.hashes)),
            decreases tokens@.len() - i,
        {
            assert(tokens@.subrange(0, i as int + 1).drop_last() =~= tokens@.subrange(0, i as int));
            assert(tokens@.subrange(0, i as int + 1).last() == tokens@[i as int]);
            match ing.apply(self, &tokens[i]) {
                Err(e) => {
                    proof {
                        lemma_tokens_error_sticks(
                            initial_body(d2.hashes),
                            c2s,
                            strobe_start,
                            strobe_period,
                            tokens@,
                            i as int + 1,
                        );
                    }
                    return Err(e);
                },
                Ok(()) => {},
            }
            i += 1;
        }
        assert(tokens@.subrange(0, i as int) =~= tokens@);
        ing.finish(self);
        Ok(())
    }
}

/// A refusal at some declaration is the refusal of the whole header.
pub proof fn lemma_decls_error_sticks(d: DbView, m: HeaderView, decls: Seq<DeclView>, k: int)
    requires
        0 <= k <= decls.len(),
        decls_declared(d, m, decls.subrange(0, k)) is Err,
    ensures
        decls_declared(d, m, decls) == decls_declared(d, m, decls.subrange(0, k)),
    decreases decls.len() - k,
{
    if k < decls.len() {
        assert(decls.subrange(0, k + 1).drop_last() =~= decls.subrange(0, k));
        lemma_decls_error_sticks(d, m, decls, k + 1);
    } else {
        assert(decls.subrange(0, k) =~= decls);
    }
}

/// A refusal at some token is the refusal of the whole body.
pub proof fn lemma_tokens_error_sticks(
    b: BodyView,
    c2s: Seq<Option<(usize, usize)>>,
    start: u64,
    period: u64,
    toks: Seq<Token>,
    k: int,
)
    requires
        0 <= k <= toks.len(),
        tokens_applied(b, c2s, start, period, toks.subrange(0, k)) is Err,
    ensures
        tokens_applied(b, c2s, start, period, toks) == tokens_applied(b, c2s, start, period, toks.subrange(0, k)),
    decreases toks.len() - k,
{
    if k < toks.len() {
        assert(toks.subrange(0, k + 1).drop_last() =~= toks.subrange(0, k));
        lemma_tokens_error_sticks(b, c2s, start, period, toks, k + 1);
    } else {
        assert(toks.subrange(0, k) =~= toks);
    }
}

/// `code_count` is at least one more than every code among the first `k`.
pub proof fn lemma_code_count_bound(decls: Seq<DeclView>, k: int)
    requires
        0 < k <= decls.len(),
    ensures
        code_count(decls) >= decls[k - 1].code + 1,
    decreases decls.len(),
{
    if k < decls.len() {
        lemma_code_count_bound(decls.drop_last(), k);
    }
}

} // verus!
