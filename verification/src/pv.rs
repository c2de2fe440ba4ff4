use vstd::prelude::*;

use crate::cdb_fen::{cdb_fen, NaturalOrder};
use crate::cdb_moves::spec_decode;
use crate::cdb_moves::{
    count_good_from, lemma_decode_moves_wf, lemma_moves_wf_multiset, lemma_moves_wf_take, moves_wf,
    sorted_desc, take_while_ge, ScoredMove, ScoredMoves, SortedScoredMoves, UciMove,
};
use crate::chess::{
    legal_move_count, play_of, play_uci, position_of_chess, promotion_char, spec_promotion_char,
    spec_promotion_of_char, zobrist_hash,
};
use crate::error::Error;

verus! {

/// What a store read handed back for one key: no value, the value's bytes,
/// or the store's error message.
pub enum Fetched {
    Missing,
    Value(Vec<u8>),
    Failed(String),
}

/// What the caller must do next: fetch the values of these keys and hand
/// them back, or stop, the line being complete.
#[derive(Debug)]
pub enum PvQuery {
    Done,
    Fetch(Vec<Vec<u8>>),
}

/// Every move of the line names squares below 64.
pub open spec fn line_wf(s: Seq<UciMove>) -> bool {
    forall|i: int| 0 <= i < s.len() ==> (#[trigger] s[i].from < 64) && s[i].to < 64
}

/// The move a play result prints: its squares and promotion letter, read
/// back as a move.
pub open spec fn rendered_of(p: (shakmaty::Chess, u8, u8, u8)) -> UciMove {
    UciMove { from: p.1, to: p.2, promotion: spec_promotion_of_char(p.3) }
}

/// What playing a scored move from `pos` returns.
pub open spec fn spec_play_move(pos: shakmaty::Chess, m: ScoredMove) -> Option<
    (shakmaty::Chess, u8, u8, u8),
> {
    play_of(pos, m.uci.from, m.uci.to, spec_promotion_char(m.uci.promotion))
}

proof fn lemma_prefix_refl(s: Seq<UciMove>)
    ensures
        s.is_prefix_of(s),
{
    assert(s.take(s.len() as int) =~= s);
}

proof fn lemma_prefix_push(s: Seq<UciMove>, t: Seq<UciMove>)
    requires
        t.len() == s.len() + 1,
        forall|i: int| 0 <= i < s.len() ==> t[i] == s[i],
    ensures
        s.is_prefix_of(t),
{
    assert(t.take(s.len() as int) =~= s);
}

/// The index of the smallest count, the earliest on a tie.
fn pick_min_index(counts: &Vec<usize>) -> (r: usize)
    requires
        counts@.len() >= 1,
    ensures
        r < counts@.len(),
        forall|j: int| 0 <= j < counts@.len() ==> counts@[r as int] <= counts@[j],
        forall|j: int| 0 <= j < r ==> counts@[j] > counts@[r as int],
{
    let mut best: usize = 0;
    let mut j: usize = 1;
    while j < counts.len()
        invariant
            counts@.len() >= 1,
            best < j <= counts@.len(),
            forall|t: int| 0 <= t < j ==> counts@[best as int] <= counts@[t],
            forall|t: int| 0 <= t < best ==> counts@[t] > counts@[best as int],
        decreases counts@.len() - j,
    {
        if counts[j] < counts[best] {
            best = j;
        }
        j += 1;
    }
    best
}

enum Phase {
    Ready,
    AwaitRoot,
    AwaitChildren,
    Finished,
}

/// One principal-variation descent: from a starting position it walks the
/// store one ply at a time, always following a best move, breaking ties by
/// the move that leaves the opponent the fewest good replies, and stops on
/// a repetition, the length bound, a position absent from the store, or a
/// position without moves. The caller performs the store reads: each call
/// of `next` consumes the replies to the previous `Fetch` and says what to
/// fetch next.
pub struct PvDescent {
    pos: shakmaty::Chess,
    pv: Vec<UciMove>,
    seen: Vec<u64>,
    max_len: usize,
    phase: Phase,
    cached: Option<ScoredMoves>,
    root_order: NaturalOrder,
    cand_children: Vec<shakmaty::Chess>,
    cand_orders: Vec<NaturalOrder>,
    cand_rendered: Vec<UciMove>,
}

impl PvDescent {
    /// The line found so far.
    pub closed spec fn spec_pv(&self) -> Seq<UciMove> {
        self.pv@
    }

    /// The position hashes of the line's positions, one per iteration.
    pub closed spec fn spec_seen(&self) -> Seq<u64> {
        self.seen@
    }

    pub closed spec fn spec_max_len(&self) -> int {
        self.max_len as int
    }

    pub closed spec fn is_finished(&self) -> bool {
        self.phase is Finished
    }

    /// Whether the next reply answers the current position's own value.
    pub closed spec fn awaiting_root(&self) -> bool {
        self.phase is AwaitRoot
    }

    /// Whether the next replies answer a tie-break's child values.
    pub closed spec fn awaiting_children(&self) -> bool {
        self.phase is AwaitChildren
    }

    /// The rendered moves of a pending tie-break's candidates, one of
    /// which the line will take.
    pub closed spec fn spec_cand_moves(&self) -> Seq<UciMove> {
        self.cand_rendered@
    }

    /// The orientation the awaited value will be decoded with: that of the
    /// current position's canonical key.
    pub closed spec fn awaited_order(&self) -> NaturalOrder {
        self.root_order
    }

    /// The current position.
    pub closed spec fn spec_pos(&self) -> shakmaty::Chess {
        self.pos
    }

    /// The moves held back for the first iteration, if any.
    pub closed spec fn spec_cached(&self) -> Option<ScoredMoves> {
        self.cached
    }

    /// A pending tie-break's candidates are exactly the given moves in
    /// order: each plays legally from `pos`, and the children and printed
    /// moves are what the play returned.
    pub closed spec fn cands_played_from(&self, pos: shakmaty::Chess, best: Seq<ScoredMove>) -> bool {
        &&& self.cand_children@.len() == best.len()
        &&& self.cand_rendered@.len() == best.len()
        &&& forall|i: int|
            0 <= i < best.len() ==> spec_play_move(pos, #[trigger] best[i]) is Some
                && self.cand_children@[i] == spec_play_move(pos, best[i]).unwrap().0
                && self.cand_rendered@[i] == rendered_of(spec_play_move(pos, best[i]).unwrap())
    }

    /// The child positions of a pending tie-break, in candidate order.
    pub closed spec fn spec_cand_children(&self) -> Seq<shakmaty::Chess> {
        self.cand_children@
    }

    /// The key orientations of a pending tie-break's children.
    pub closed spec fn spec_cand_orders(&self) -> Seq<NaturalOrder> {
        self.cand_orders@
    }

    /// The keys of a pending tie-break ask for the canonical key of each
    /// candidate child position, whose value the matching orientation will
    /// decode.
    pub closed spec fn cand_keys_ok(&self, keys: Seq<Vec<u8>>) -> bool {
        &&& keys.len() == self.cand_children@.len()
        &&& forall|i: int|
            0 <= i < keys.len() ==> (#[trigger] keys[i])@ == crate::chess::spec_pos_key(
                self.cand_children@[i],
            ) && self.cand_orders@[i] == crate::chess::spec_pos_order(self.cand_children@[i])
    }

    /// How many store round trips the descent can still ask for: each
    /// `Fetch` spends one. Two per iteration suffice (the position's value
    /// and one tie-break batch), so a fresh descent holds fuel for the
    /// `max_len + 1` iterations of the length bound.
    pub closed spec fn spec_fuel(&self) -> int {
        2 * (self.max_len as int + 1) - self.seen@.len() - self.pv@.len() - (
        if self.phase is AwaitChildren {
            1int
        } else {
            0int
        })
    }

    /// How many reply values the next call of `next` consumes: none before
    /// the first iteration or at the end, one while the position's own
    /// value is out, one per tied candidate while a tie-break is out.
    pub closed spec fn spec_expected_replies(&self) -> int {
        match self.phase {
            Phase::Ready => 0,
            Phase::AwaitRoot => 1,
            Phase::AwaitChildren => self.cand_children@.len() as int,
            Phase::Finished => 0,
        }
    }

    /// How many reply values the next call of `next` consumes.
    pub fn expected_replies(&self) -> (r: usize)
        ensures
            r == self.spec_expected_replies(),
    {
        match self.phase {
            Phase::Ready => 0,
            Phase::AwaitRoot => 1,
            Phase::AwaitChildren => self.cand_children.len(),
            Phase::Finished => 0,
        }
    }

    /// The descent's invariant: the line never exceeds the length bound,
    /// one position hash is recorded per iteration and never twice, and
    /// the candidate lists of a pending tie-break line up.
    pub closed spec fn inv(&self) -> bool {
        &&& self.pv@.len() <= self.max_len
        &&& self.seen@.len() <= self.pv@.len() + 1
        &&& (forall|i: int, j: int|
            0 <= i < j < self.seen@.len() ==> self.seen@[i] != self.seen@[j])
        &&& line_wf(self.pv@)
        &&& (self.phase is Ready ==> self.seen@.len() <= self.pv@.len())
        &&& (self.phase is AwaitRoot ==> self.pv@.len() < self.max_len)
        &&& (self.phase is AwaitChildren ==> self.pv@.len() < self.max_len)
        &&& (self.phase is AwaitChildren ==> self.cand_children@.len() >= 2
            && self.cand_orders@.len() == self.cand_children@.len() && self.cand_rendered@.len()
            == self.cand_children@.len() && line_wf(self.cand_rendered@))
        &&& (!(self.phase is AwaitChildren) ==> self.cand_children@.len() == 0
            && self.cand_orders@.len() == 0 && self.cand_rendered@.len() == 0)
        &&& (!(self.phase is Ready) ==> self.cached is None)
        &&& (self.cached is Some ==> moves_wf(self.cached.unwrap().spec_moves()))
    }

    /// A descent from a position, bounded to `max_len` moves.
    pub fn start(pos: shakmaty::Chess, max_len: usize) -> (r: PvDescent)
        ensures
            r.inv(),
            r.spec_pv().len() == 0,
            r.spec_seen().len() == 0,
            r.spec_max_len() == max_len,
            r.spec_pos() == pos,
            r.spec_cached() is None,
    {
        PvDescent {
            pos,
            pv: Vec::new(),
            seen: Vec::new(),
            max_len,
            phase: Phase::Ready,
            cached: None,
            root_order: NaturalOrder::Same,
            cand_children: Vec::new(),
            cand_orders: Vec::new(),
            cand_rendered: Vec::new(),
        }
    }

    /// A descent seeded with already-decoded moves of the position, so
    /// that the first iteration reads nothing from the store.
    pub fn start_with_cached(pos: shakmaty::Chess, cached: ScoredMoves, max_len: usize) -> (r:
        PvDescent)
        requires
            moves_wf(cached.spec_moves()),
        ensures
            r.inv(),
            r.spec_pv().len() == 0,
            r.spec_seen().len() == 0,
            r.spec_max_len() == max_len,
            r.spec_pos() == pos,
            r.spec_cached() == Some(cached),
    {
        PvDescent {
            pos,
            pv: Vec::new(),
            seen: Vec::new(),
            max_len,
            phase: Phase::Ready,
            cached: Some(cached),
            root_order: NaturalOrder::Same,
            cand_children: Vec::new(),
            cand_orders: Vec::new(),
            cand_rendered: Vec::new(),
        }
    }

    /// The line, when the descent has finished.
    pub fn into_line(self) -> (r: Vec<UciMove>)
        requires
            self.inv(),
        ensures
            r@ == self.spec_pv(),
            line_wf(r@),
    {
        self.pv
    }

    fn seen_contains(&self, h: u64) -> (r: bool)
        ensures
            r == self.seen@.contains(h),
    {
        let n = self.seen.len();
        let mut i: usize = 0;
        while i < n
            invariant
                n == self.seen@.len(),
                i <= n,
                forall|j: int| 0 <= j < i ==> self.seen@[j] != h,
            decreases n - i,
        {
            if self.seen[i] == h {
                return true;
            }
            i += 1;
        }
        false
    }

    /// Opens the next iteration: stops at the length bound or on a
    /// repeated position, consumes the cached moves if any, and otherwise
    /// asks for the current position's value.
    fn advance(&mut self) -> (r: Result<PvQuery, Error>)
        requires
            !(old(self).phase is AwaitChildren),
            old(self).seen@.len() <= old(self).pv@.len(),
            old(self).pv@.len() <= old(self).max_len,
            forall|i: int, j: int|
                0 <= i < j < old(self).seen@.len() ==> old(self).seen@[i] != old(self).seen@[j],
            line_wf(old(self).pv@),
            old(self).cached is Some ==> moves_wf(old(self).cached.unwrap().spec_moves()),
            old(self).cand_children@.len() == 0,
            old(self).cand_orders@.len() == 0,
            old(self).cand_rendered@.len() == 0,
        ensures
            final(self).inv(),
            old(self).pv@.is_prefix_of(final(self).pv@),
            final(self).pv@.len() <= old(self).pv@.len() + 1,
            old(self).cached is None ==> final(self).pv@ == old(self).pv@,
            old(self).cached is None ==> r is Ok,
            old(self).cached is None ==> final(self).pos == old(self).pos,
            (old(self).cached is None && old(self).seen@.len() == 0 && old(self).pv@.len() < old(
                self).max_len) ==> (r matches Ok(PvQuery::Fetch(_))) && final(
                self).phase is AwaitRoot,
            (old(self).seen@.len() == 0 && old(self).pv@.len() < old(self).max_len) ==> (old(
                self).cached matches Some(sm) ==> (sm.spec_moves().len() == 0 ==> (r matches Ok(
                PvQuery::Done,
            )) && final(self).pv@ == old(self).pv@)),
            (old(self).seen@.len() == 0 && old(self).pv@.len() < old(self).max_len) ==> (old(
                self).cached matches Some(sm) ==> (sm.spec_moves().len() >= 1 ==> (exists|
                t: Seq<ScoredMove>,
            |
                (#[trigger] t.to_multiset()) == sm.spec_moves().to_multiset() && sorted_desc(t)
                    && ({
                    let best = take_while_ge(t, t[0].score.0 as int);
                    &&& (best.len() == 1 ==> (match spec_play_move(old(self).pos, best[0]) {
                        Some(p) => r is Ok && final(self).pv@ == old(self).pv@.push(
                            rendered_of(p),
                        ),
                        None => (r matches Err(e) && e == Error::MalformedBlob),
                    }))
                    &&& (best.len() >= 2 ==> ((r matches Err(e) && e == Error::MalformedBlob) || ((
                    r matches Ok(PvQuery::Fetch(_))) && final(self).phase is AwaitChildren
                        && final(self).cands_played_from(old(self).pos, best))))
                })))),
            final(self).max_len == old(self).max_len,
            r matches Ok(PvQuery::Done) ==> final(self).is_finished(),
            r matches Ok(PvQuery::Fetch(keys)) ==> keys@.len() >= 1 && keys@.len() == final(
                self).spec_expected_replies(),
            r matches Ok(PvQuery::Fetch(keys)) ==> final(self).spec_fuel() < old(self).spec_fuel(),
            r matches Ok(PvQuery::Fetch(keys)) ==> (final(self).phase is AwaitRoot
                ==> keys@.len() == 1 && keys@[0]@ == crate::chess::spec_pos_key(final(self).pos)
                && final(self).root_order == crate::chess::spec_pos_order(final(self).pos)),
            r matches Ok(PvQuery::Fetch(keys)) ==> (final(self).phase is AwaitChildren
                ==> final(self).cand_keys_ok(keys@)),
            r matches Err(e) ==> final(self).is_finished() && (e is DbError
                || e is MalformedBlob),
        decreases (if old(self).cached is Some {
            1int
        } else {
            0int
        }),
        // one pass may consume the cached moves and then come back here
        0int,
    {
        if self.pv.len() >= self.max_len {
            self.phase = Phase::Finished;
            self.cached = None;
            proof {
                lemma_prefix_refl(self.pv@);
            }
            return Ok(PvQuery::Done);
        }
        let h = zobrist_hash(&self.pos);
        if self.seen_contains(h) {
            self.phase = Phase::Finished;
            self.cached = None;
            proof {
                lemma_prefix_refl(self.pv@);
            }
            return Ok(PvQuery::Done);
        }
        self.seen.push(h);
        match self.cached.take() {
            Some(sm) => {
                let sorted = sm.into_sorted();
                proof {
                    lemma_moves_wf_multiset(sm.spec_moves(), sorted.spec_moves());
                }
                self.process_sorted(sorted)
            },
            None => {
                let model = position_of_chess(&self.pos);
                let (key, order) = cdb_fen(&model);
                self.root_order = order;
                self.phase = Phase::AwaitRoot;
                let ghost key_bytes = key.byte_view();
                let mut keys: Vec<Vec<u8>> = Vec::new();
                keys.push(key.into_bytes());
                proof {
                    lemma_prefix_refl(self.pv@);
                    assert(keys@[0]@ == crate::chess::spec_pos_key(self.pos));
                }
                Ok(PvQuery::Fetch(keys))
            },
        }
    }

    /// Takes the sorted moves of the current position and either finishes,
    /// plays the single best move and opens the next iteration, or asks
    /// for the children of the tied best moves.
    fn process_sorted(&mut self, sorted: SortedScoredMoves) -> (r: Result<PvQuery, Error>)
        requires
            !(old(self).phase is AwaitChildren),
            moves_wf(sorted.spec_moves()),
            old(self).cached is None,
            old(self).seen@.len() <= old(self).pv@.len() + 1,
            old(self).pv@.len() < old(self).max_len,
            forall|i: int, j: int|
                0 <= i < j < old(self).seen@.len() ==> old(self).seen@[i] != old(self).seen@[j],
            line_wf(old(self).pv@),
            old(self).cand_children@.len() == 0,
            old(self).cand_orders@.len() == 0,
            old(self).cand_rendered@.len() == 0,
        ensures
            final(self).inv(),
            old(self).pv@.is_prefix_of(final(self).pv@),
            final(self).pv@.len() <= old(self).pv@.len() + 1,
            final(self).max_len == old(self).max_len,
            r matches Ok(PvQuery::Done) ==> final(self).is_finished(),
            r matches Ok(PvQuery::Fetch(keys)) ==> keys@.len() >= 1 && keys@.len() == final(
                self).spec_expected_replies(),
            r matches Ok(PvQuery::Fetch(keys)) ==> final(self).spec_fuel() < old(self).spec_fuel(),
            r matches Ok(PvQuery::Fetch(keys)) ==> (final(self).phase is AwaitRoot
                ==> keys@.len() == 1 && keys@[0]@ == crate::chess::spec_pos_key(final(self).pos)
                && final(self).root_order == crate::chess::spec_pos_order(final(self).pos)),
            r matches Ok(PvQuery::Fetch(keys)) ==> (final(self).phase is AwaitChildren
                ==> final(self).cand_keys_ok(keys@)),
            sorted.spec_moves().len() == 0 ==> (r matches Ok(PvQuery::Done)) && final(self).pv@
                == old(self).pv@,
            sorted.spec_moves().len() >= 1 ==> ({
                let best = take_while_ge(
                    sorted.spec_moves(),
                    sorted.spec_moves()[0].score.0 as int,
                );
                &&& (best.len() == 1 ==> (match spec_play_move(old(self).pos, best[0]) {
                    Some(p) => r is Ok && final(self).pv@ == old(self).pv@.push(rendered_of(p)),
                    None => (r matches Err(e) && e == Error::MalformedBlob),
                }))
                &&& (best.len() >= 2 ==> ((r matches Err(e) && e == Error::MalformedBlob) || ((
                r matches Ok(PvQuery::Fetch(_))) && final(self).phase is AwaitChildren && final(
                    self).cands_played_from(old(self).pos, best))))
            }),
            r matches Err(e) ==> final(self).is_finished() && (e is DbError
                || e is MalformedBlob),
        decreases 0int, 1int,
    {
        let ghost sorted_moves = sorted.spec_moves();
        let best = sorted.into_best_moves_top();
        proof {
            if sorted_moves.len() >= 1 {
                crate::cdb_moves::lemma_take_while_ge(sorted_moves, sorted_moves[0].score.0 as int, 0);
                lemma_moves_wf_take(sorted_moves, best.spec_moves().len() as int);
            }
        }
        let best_moves = best.into_moves();
        if best_moves.len() == 0 {
            self.phase = Phase::Finished;
            proof {
                lemma_prefix_refl(self.pv@);
            }
            return Ok(PvQuery::Done);
        }
        if best_moves.len() == 1 {
            let m = best_moves[0];
            let pc = promotion_char(m.uci.promotion);
            match play_uci(&self.pos, m.uci.from, m.uci.to, pc) {
                None => {
                    // The stored best move is not legal here: corrupt data.
                    self.phase = Phase::Finished;
                    proof {
                        lemma_prefix_refl(self.pv@);
                    }
                    Err(Error::MalformedBlob)
                },
                Some((child, rf, rt, rp)) => {
                    let rendered = UciMove {
                        from: rf,
                        to: rt,
                        promotion: crate::chess::promotion_of_char(rp),
                    };
                    self.pv.push(rendered);
                    self.pos = child;
                    proof {
                        lemma_prefix_push(old(self).pv@, self.pv@);
                    }
                    self.advance()
                },
            }
        } else {
            let n = best_moves.len();
            proof {
                assert(sorted_moves.len() >= n);
            }
            let mut children: Vec<shakmaty::Chess> = Vec::new();
            let mut orders: Vec<NaturalOrder> = Vec::new();
            let mut rendered: Vec<UciMove> = Vec::new();
            let mut keys: Vec<Vec<u8>> = Vec::new();
            let mut i: usize = 0;
            while i < n
                invariant
                    n == best_moves@.len(),
                    n >= 2,
                    sorted.spec_moves().len() >= 2,
                    sorted.spec_moves() == sorted_moves,
                    best_moves@ == take_while_ge(sorted_moves, sorted_moves[0].score.0 as int),
                    moves_wf(best_moves@),
                    i <= n,
                    children@.len() == i,
                    orders@.len() == i,
                    rendered@.len() == i,
                    keys@.len() == i,
                    forall|t: int|
                        0 <= t < i ==> (#[trigger] keys@[t])@ == crate::chess::spec_pos_key(
                            children@[t],
                        ),
                    forall|t: int|
                        0 <= t < i ==> #[trigger] orders@[t] == crate::chess::spec_pos_order(
                            children@[t],
                        ),
                    forall|t: int|
                        0 <= t < i ==> spec_play_move(old(self).pos, #[trigger] best_moves@[t])
                            is Some && children@[t] == spec_play_move(
                            old(self).pos,
                            best_moves@[t],
                        ).unwrap().0 && rendered@[t] == rendered_of(
                            spec_play_move(old(self).pos, best_moves@[t]).unwrap(),
                        ),
                    line_wf(rendered@),
                    self.pos == old(self).pos,
                    self.pv@ == old(self).pv@,
                    self.seen@ == old(self).seen@,
                    self.max_len == old(self).max_len,
                    self.cached is None,
                    self.cand_children@.len() == 0,
                    self.cand_orders@.len() == 0,
                    self.cand_rendered@.len() == 0,
                    old(self).seen@.len() <= old(self).pv@.len() + 1,
                    old(self).pv@.len() < old(self).max_len,
                    forall|a: int, c: int|
                        0 <= a < c < old(self).seen@.len() ==> old(self).seen@[a] != old(
                            self,
                        ).seen@[c],
                    line_wf(old(self).pv@),
                decreases n - i,
            {
                let m = best_moves[i];
                let pc = promotion_char(m.uci.promotion);
                match play_uci(&self.pos, m.uci.from, m.uci.to, pc) {
                    None => {
                        self.phase = Phase::Finished;
                        proof {
                            lemma_prefix_refl(self.pv@);
                        }
                        return Err(Error::MalformedBlob);
                    },
                    Some((child, rf, rt, rp)) => {
                        let model = position_of_chess(&child);
                        let (key, order) = cdb_fen(&model);
                        let key_bytes = key.into_bytes();
                        proof {
                            assert(key_bytes@ == crate::chess::spec_pos_key(child));
                            assert(order == crate::chess::spec_pos_order(child));
                            assert(spec_play_move(old(self).pos, best_moves@[i as int]) == Some(
                                (child, rf, rt, rp),
                            ));
                        }
                        keys.push(key_bytes);
                        children.push(child);
                        orders.push(order);
                        rendered.push(
                            UciMove {
                                from: rf,
                                to: rt,
                                promotion: crate::chess::promotion_of_char(rp),
                            },
                        );
                        proof {
                            assert(children@[i as int] == child);
                            assert((keys@[i as int])@ == crate::chess::spec_pos_key(
                                children@[i as int],
                            ));
                            assert(orders@[i as int] == crate::chess::spec_pos_order(
                                children@[i as int],
                            ));
                            assert(rendered@[i as int] == rendered_of((child, rf, rt, rp)));
                        }
                    },
                }
                i += 1;
            }
            self.cand_children = children;
            self.cand_orders = orders;
            self.cand_rendered = rendered;
            self.phase = Phase::AwaitChildren;
            proof {
                lemma_prefix_refl(self.pv@);
                assert(self.cand_keys_ok(keys@));
                assert(self.cands_played_from(old(self).pos, best_moves@));
            }
            Ok(PvQuery::Fetch(keys))
        }
    }

    /// Runs the descent one step: the replies answer the previous `Fetch`
    /// (none for the first call). Returns what to fetch next, `Done` when
    /// the line is complete, and an error when the store failed or a value
    /// blob is malformed. A reply list of the wrong length ends the
    /// descent.
    pub fn next(&mut self, reply: Vec<Fetched>) -> (r: Result<PvQuery, Error>)
        requires
            old(self).inv(),
        ensures
            final(self).inv(),
            old(self).spec_pv().is_prefix_of(final(self).spec_pv()),
            final(self).spec_pv().len() <= old(self).spec_pv().len() + 1,
            final(self).spec_max_len() == old(self).spec_max_len(),
            r matches Ok(PvQuery::Done) ==> final(self).is_finished(),
            r matches Ok(PvQuery::Fetch(keys)) ==> keys@.len() >= 1 && keys@.len() == final(
                self).spec_expected_replies(),
            r matches Ok(PvQuery::Fetch(keys)) ==> final(self).spec_fuel() < old(self).spec_fuel(),
            r matches Ok(PvQuery::Fetch(keys)) ==> (final(self).awaiting_root() ==> keys@.len()
                == 1 && keys@[0]@ == crate::chess::spec_pos_key(final(self).spec_pos())
                && final(self).awaited_order() == crate::chess::spec_pos_order(
                final(self).spec_pos(),
            )),
            r matches Ok(PvQuery::Fetch(keys)) ==> (!final(self).awaiting_root() ==> final(
                self).cand_keys_ok(keys@)),
            r matches Err(e) ==> final(self).is_finished() && (e is DbError
                || e is MalformedBlob),
            (!old(self).is_finished() && old(self).spec_expected_replies() == 0 && old(
                self).spec_seen().len() == 0 && old(self).spec_pv().len() < old(
                self).spec_max_len() && old(self).spec_cached() is None) ==> (r matches Ok(
                PvQuery::Fetch(_),
            )) && final(self).awaiting_root() && final(self).spec_pos() == old(self).spec_pos(),
            (!old(self).is_finished() && old(self).spec_expected_replies() == 0 && old(
                self).spec_seen().len() == 0 && old(self).spec_pv().len() < old(
                self).spec_max_len()) ==> (old(self).spec_cached() matches Some(sm) ==> (
            sm.spec_moves().len() == 0 ==> (r matches Ok(PvQuery::Done)) && final(self).spec_pv()
                == old(self).spec_pv())),
            (!old(self).is_finished() && old(self).spec_expected_replies() == 0 && old(
                self).spec_seen().len() == 0 && old(self).spec_pv().len() < old(
                self).spec_max_len()) ==> (old(self).spec_cached() matches Some(sm) ==> (
            sm.spec_moves().len() >= 1 ==> (exists|t: Seq<ScoredMove>|
                (#[trigger] t.to_multiset()) == sm.spec_moves().to_multiset() && sorted_desc(t)
                    && ({
                    let best = take_while_ge(t, t[0].score.0 as int);
                    &&& (best.len() == 1 ==> (match spec_play_move(old(self).spec_pos(), best[0]) {
                        Some(p) => r is Ok && final(self).spec_pv() == old(self).spec_pv().push(
                            rendered_of(p),
                        ),
                        None => (r matches Err(e) && e == Error::MalformedBlob),
                    }))
                    &&& (best.len() >= 2 ==> ((r matches Err(e) && e == Error::MalformedBlob) || ((
                    r matches Ok(PvQuery::Fetch(_))) && !final(self).awaiting_root() && !final(
                        self).is_finished() && final(self).cands_played_from(
                        old(self).spec_pos(),
                        best,
                    ))))
                })))),
            old(self).awaiting_root() && reply@.len() == 1 && reply@[0] is Missing ==> (r matches
            Ok(PvQuery::Done)) && final(self).spec_pv() == old(self).spec_pv(),
            old(self).awaiting_root() && reply@.len() == 1 ==> (reply@[0] matches Fetched::Failed(
                msg) ==> (r matches Err(e) && e == Error::DbError(msg))),
            old(self).awaiting_root() && reply@.len() == 1 ==> (reply@[0] matches Fetched::Value(
                bytes) ==> (spec_decode(bytes@, old(self).awaited_order()) is None ==> (r matches
            Err(e) && e == Error::MalformedBlob))),
            old(self).awaiting_root() && reply@.len() == 1 ==> (reply@[0] matches Fetched::Value(
                bytes) ==> (spec_decode(bytes@, old(self).awaited_order()) matches Some(dec)
                && dec.0.len() == 0 ==> (r matches Ok(PvQuery::Done)) && final(self).spec_pv()
                == old(self).spec_pv())),
            old(self).awaiting_root() && reply@.len() == 1 ==> (reply@[0] matches Fetched::Value(
                bytes) ==> (spec_decode(bytes@, old(self).awaited_order()) matches Some(dec)
                ==> (dec.0.len() >= 1 ==> (exists|t: Seq<ScoredMove>|
                (#[trigger] t.to_multiset()) == dec.0.to_multiset() && sorted_desc(t) && ({
                    let best = take_while_ge(t, t[0].score.0 as int);
                    &&& (best.len() == 1 ==> (match spec_play_move(old(self).spec_pos(), best[0]) {
                        Some(p) => r is Ok && final(self).spec_pv() == old(self).spec_pv().push(
                            rendered_of(p),
                        ),
                        None => (r matches Err(e) && e == Error::MalformedBlob),
                    }))
                    &&& (best.len() >= 2 ==> ((r matches Err(e) && e == Error::MalformedBlob) || ((
                    r matches Ok(PvQuery::Fetch(_))) && !final(self).awaiting_root() && !final(
                        self).is_finished() && final(self).cands_played_from(
                        old(self).spec_pos(),
                        best,
                    ))))
                }))))),
            (old(self).awaiting_children() && reply@.len() == old(self).spec_expected_replies()
                && (forall|j: int| 0 <= j < reply@.len() ==> !((#[trigger] reply@[j]) is Failed))
                && (forall|j: int|
                0 <= j < reply@.len() ==> ((#[trigger] reply@[j]) matches Fetched::Value(b)
                    ==> spec_decode(b@, old(self).spec_cand_orders()[j]) is Some))) ==> r is Ok
                && (exists|k: int|
                0 <= k < reply@.len() && (forall|j: int|
                    0 <= j < reply@.len() ==> spec_good_of_reply(
                        #[trigger] reply@[k],
                        old(self).spec_cand_orders()[k],
                    ) <= spec_good_of_reply(reply@[j], old(self).spec_cand_orders()[j]))
                    && (forall|j: int|
                    0 <= j < k ==> spec_good_of_reply(
                        #[trigger] reply@[j],
                        old(self).spec_cand_orders()[j],
                    ) > spec_good_of_reply(reply@[k], old(self).spec_cand_orders()[k]))
                    && final(self).spec_pv() == old(self).spec_pv().push(
                    old(self).spec_cand_moves()[k],
                )),
    {
        match self.phase {
            Phase::Finished => Ok(PvQuery::Done),
            Phase::Ready => {
                self.phase = Phase::Finished;
                self.advance()
            },
            Phase::AwaitRoot => {
                self.phase = Phase::Finished;
                let mut reply = reply;
                if reply.len() != 1 {
                    return Ok(PvQuery::Done);
                }
                match reply.pop().unwrap() {
                    Fetched::Failed(msg) => Err(Error::DbError(msg)),
                    Fetched::Missing => Ok(PvQuery::Done),
                    Fetched::Value(bytes) => {
                        match ScoredMoves::read_cdb(bytes.as_slice(), self.root_order) {
                            Err(_) => Err(Error::MalformedBlob),
                            Ok(sm) => {
                                let sorted = sm.into_sorted();
                                proof {
                                    lemma_decode_moves_wf(bytes@, self.root_order);
                                    lemma_moves_wf_multiset(sm.spec_moves(), sorted.spec_moves());
                                }
                                self.process_sorted(sorted)
                            },
                        }
                    },
                }
            },
            Phase::AwaitChildren => {
                self.phase = Phase::Finished;
                let n = self.cand_children.len();
                if reply.len() != n {
                    self.cand_children = Vec::new();
                    self.cand_orders = Vec::new();
                    self.cand_rendered = Vec::new();
                    proof {
                        lemma_prefix_refl(self.pv@);
                    }
                    return Ok(PvQuery::Done);
                }
                let mut counts: Vec<usize> = Vec::new();
                let mut i: usize = 0;
                while i < n
                    invariant
                        old(self).inv(),
                        old(self).phase is AwaitChildren,
                        n == reply@.len(),
                        i <= n,
                        counts@.len() == i,
                        forall|t: int|
                            0 <= t < i ==> #[trigger] counts@[t] == spec_good_of_reply(
                                reply@[t],
                                old(self).cand_orders@[t],
                            ),
                        self.pv@ == old(self).pv@,
                        self.seen@ == old(self).seen@,
                        self.max_len == old(self).max_len,
                        self.cached is None,
                        self.phase is Finished,
                        self.cand_children@ == old(self).cand_children@,
                        self.cand_orders@ == old(self).cand_orders@,
                        self.cand_rendered@ == old(self).cand_rendered@,
                        n == self.cand_children@.len(),
                        n == self.cand_orders@.len(),
                        n == self.cand_rendered@.len(),
                        n >= 1,
                        line_wf(self.cand_rendered@),
                        self.pv@.len() < self.max_len,
                    decreases n - i,
                {
                    match &reply[i] {
                        Fetched::Failed(msg) => {
                            let m = msg.clone();
                            self.cand_children = Vec::new();
                            self.cand_orders = Vec::new();
                            self.cand_rendered = Vec::new();
                            proof {
                                lemma_prefix_refl(self.pv@);
                            }
                            return Err(Error::DbError(m));
                        },
                        Fetched::Missing => {
                            counts.push(0);
                        },
                        Fetched::Value(bytes) => {
                            match ScoredMoves::read_cdb(bytes.as_slice(), self.cand_orders[i]) {
                                Err(_) => {
                                    self.cand_children = Vec::new();
                                    self.cand_orders = Vec::new();
                                    self.cand_rendered = Vec::new();
                                    proof {
                                        lemma_prefix_refl(self.pv@);
                                    }
                                    return Err(Error::MalformedBlob);
                                },
                                Ok(sm) => {
                                    counts.push(sm.num_good_moves());
                                },
                            }
                        },
                    }
                    i += 1;
                }
                let idx = pick_min_index(&counts);
                proof {
                    assert forall|j: int|
                        0 <= j < reply@.len() implies spec_good_of_reply(
                        reply@[idx as int],
                        old(self).cand_orders@[idx as int],
                    ) <= spec_good_of_reply(reply@[j], old(self).cand_orders@[j]) by {
                        assert(counts@[idx as int] <= counts@[j]);
                    }
                    assert forall|j: int| 0 <= j < idx implies spec_good_of_reply(
                        reply@[j],
                        old(self).cand_orders@[j],
                    ) > spec_good_of_reply(reply@[idx as int], old(self).cand_orders@[idx as int]) by {
                        assert(counts@[j] > counts@[idx as int]);
                    }
                }
                let mv = self.cand_rendered[idx];
                let child = self.cand_children.remove(idx);
                self.cand_children = Vec::new();
                self.cand_orders = Vec::new();
                self.cand_rendered = Vec::new();
                self.pv.push(mv);
                self.pos = child;
                proof {
                    lemma_prefix_push(old(self).pv@, self.pv@);
                    assert(self.pv@ == old(self).pv@.push(mv));
                    assert(mv == old(self).cand_rendered@[idx as int]);
                }
                self.advance()
            },
        }
    }
}

/// A descent runs at most `max_len + 1` iterations: it records one
/// position hash when an iteration opens, never a repeated one, and each
/// completed iteration appends one move to a line bounded by `max_len`.
/// Its fuel never exceeds `2 * (max_len + 1)` and never goes negative, and
/// every `Fetch` spends some: a caller that answers every `Fetch` reaches
/// `Done` within `2 * (max_len + 1)` store round trips, two per iteration.
pub proof fn lemma_descent_bounded(d: &PvDescent)
    requires
        d.inv(),
    ensures
        d.spec_seen().len() <= d.spec_max_len() + 1,
        forall|i: int, j: int|
            0 <= i < j < d.spec_seen().len() ==> d.spec_seen()[i] != d.spec_seen()[j],
        0 <= d.spec_fuel() <= 2 * (d.spec_max_len() + 1),
{
}


// ---------------------------------------------------------------------------
// The multi-variation root.
// ---------------------------------------------------------------------------

/// The requested number of variations must lie between 1 and 5.
pub fn validate_multi_pv(n: usize) -> (r: Result<(), Error>)
    ensures
        r is Ok <==> 1 <= n <= 5,
        r matches Err(e) ==> e == (Error::MultiPvRange { n }),
{
    if 1 <= n && n <= 5 {
        Ok(())
    } else {
        Err(Error::MultiPvRange { n })
    }
}

/// A root move chosen for its own descent: the move as the store encoded
/// it and as the line prints it (a castling move as king-takes-rook), its
/// score, how many good replies the opponent has after it, and the
/// already-fetched moves of the resulting position.
#[derive(Debug)]
pub struct PvSeed {
    pub uci: UciMove,
    pub rendered: UciMove,
    pub score: i16,
    pub good_replies: usize,
    child: shakmaty::Chess,
    cached: Option<ScoredMoves>,
}

/// The order of the root ranking: higher scores first, and among equal
/// scores the move leaving the opponent fewer good replies.
pub open spec fn seed_le(a: PvSeed, b: PvSeed) -> bool {
    a.spec_score() > b.spec_score() || (a.spec_score() == b.spec_score() && a.spec_good_replies()
        <= b.spec_good_replies())
}

impl PvSeed {
    pub closed spec fn spec_uci(&self) -> UciMove {
        self.uci
    }

    pub closed spec fn spec_rendered(&self) -> UciMove {
        self.rendered
    }

    pub closed spec fn spec_score(&self) -> i16 {
        self.score
    }

    pub closed spec fn spec_good_replies(&self) -> usize {
        self.good_replies
    }

    /// The position after the seed's move.
    pub closed spec fn spec_child(&self) -> shakmaty::Chess {
        self.child
    }

    /// The child's already-fetched moves, if any.
    pub closed spec fn spec_cached(&self) -> Option<ScoredMoves> {
        self.cached
    }

    /// Both forms of the move name real squares, and the cached moves, if
    /// any, do too.
    pub closed spec fn wf(&self) -> bool {
        &&& self.uci.from < 64 && self.uci.to < 64
        &&& self.rendered.from < 64 && self.rendered.to < 64
        &&& (self.cached is Some ==> moves_wf(self.cached.unwrap().spec_moves()))
    }

    /// The descent that continues this seed's line, starting after its
    /// move, with the already-fetched moves as the first iteration's list.
    pub fn into_descent(self, max_len: usize) -> (r: PvDescent)
        requires
            self.wf(),
        ensures
            r.inv(),
            r.spec_pv().len() == 0,
            r.spec_seen().len() == 0,
            r.spec_max_len() == max_len,
            r.spec_pos() == self.spec_child(),
            r.spec_cached() == self.spec_cached(),
    {
        match self.cached {
            Some(sm) => PvDescent::start_with_cached(self.child, sm, max_len),
            None => PvDescent::start(self.child, max_len),
        }
    }
}

/// The index of the best seed: the highest score, among those the fewest
/// good replies, the earliest on a full tie.
fn pick_best_seed(seeds: &Vec<PvSeed>) -> (r: usize)
    requires
        seeds@.len() >= 1,
    ensures
        r < seeds@.len(),
        forall|j: int| 0 <= j < seeds@.len() ==> seed_le(seeds@[r as int], seeds@[j]),
{
    let mut best: usize = 0;
    let mut j: usize = 1;
    while j < seeds.len()
        invariant
            seeds@.len() >= 1,
            best < j <= seeds@.len(),
            forall|t: int| 0 <= t < j ==> seed_le(seeds@[best as int], seeds@[t]),
        decreases seeds@.len() - j,
    {
        let better = seeds[j].score > seeds[best].score || (seeds[j].score == seeds[best].score
            && seeds[j].good_replies < seeds[best].good_replies);
        if better {
            best = j;
        }
        j += 1;
    }
    best
}

/// Sorts seeds by descending score, among equal scores by ascending count
/// of good replies.
fn sort_seeds(input: Vec<PvSeed>) -> (r: Vec<PvSeed>)
    ensures
        r@.len() == input@.len(),
        forall|i: int, j: int| 0 <= i <= j < r@.len() ==> seed_le(r@[i], r@[j]),
        r@.to_multiset() == input@.to_multiset(),
        (forall|i: int| 0 <= i < input@.len() ==> (#[trigger] input@[i]).wf()) ==> forall|i: int|
            0 <= i < r@.len() ==> (#[trigger] r@[i]).wf(),
{
    broadcast use vstd::seq_lib::to_multiset_build;
    broadcast use vstd::seq_lib::to_multiset_remove;
    broadcast use vstd::seq_lib::to_multiset_contains;
    broadcast use vstd::multiset::group_multiset_axioms;
    broadcast use vstd::multiset::group_multiset_properties;

    let ghost orig = input@;
    let mut input = input;
    let mut out: Vec<PvSeed> = Vec::new();
    proof {
        assert(out@.to_multiset().add(input@.to_multiset()) =~= orig.to_multiset());
    }
    while input.len() > 0
        invariant
            out@.len() + input@.len() == orig.len(),
            forall|i: int, j: int| 0 <= i <= j < out@.len() ==> seed_le(out@[i], out@[j]),
            forall|i: int, j: int|
                0 <= i < out@.len() && 0 <= j < input@.len() ==> seed_le(out@[i], input@[j]),
            out@.to_multiset().add(input@.to_multiset()) == orig.to_multiset(),
        decreases input@.len(),
    {
        let idx = pick_best_seed(&input);
        let ghost before_in = input@;
        let ghost before_out = out@;
        let x = input.remove(idx);
        out.push(x);
        proof {
            assert(before_in.contains(x));
            vstd::seq_lib::to_multiset_contains(before_in, x);
            vstd::seq_lib::to_multiset_build(before_out, x);
            vstd::seq_lib::to_multiset_remove(before_in, idx as int);
            assert(before_in.to_multiset().count(x) > 0);
            assert(out@ == before_out.push(x));
            assert(out@.to_multiset() == before_out.to_multiset().insert(x));
            assert(input@.to_multiset() == before_in.to_multiset().remove(x));
            assert(out@.to_multiset().add(input@.to_multiset()) =~= orig.to_multiset());
            assert forall|i: int, j: int|
                0 <= i < out@.len() && 0 <= j < input@.len() implies seed_le(
                out@[i],
                input@[j],
            ) by {
                if i < before_out.len() {
                    if j < idx {
                        assert(input@[j] == before_in[j]);
                    } else {
                        assert(input@[j] == before_in[j + 1]);
                    }
                } else {
                    assert(out@[i] == x);
                    if j < idx {
                        assert(input@[j] == before_in[j]);
                        assert(seed_le(x, before_in[j]));
                    } else {
                        assert(input@[j] == before_in[j + 1]);
                        assert(seed_le(x, before_in[j + 1]));
                    }
                }
            }
        }
    }
    proof {
        assert(input@.to_multiset() =~= Seq::<PvSeed>::empty().to_multiset());
        vstd::seq_lib::to_multiset_len(input@);
        assert(out@.to_multiset() =~= orig.to_multiset());
        if forall|i: int| 0 <= i < orig.len() ==> (#[trigger] orig[i]).wf() {
            assert forall|i: int| 0 <= i < out@.len() implies (#[trigger] out@[i]).wf() by {
                assert(out@.contains(out@[i]));
                assert(out@.to_multiset().count(out@[i]) > 0);
                vstd::seq_lib::to_multiset_contains(out@, out@[i]);
                vstd::seq_lib::to_multiset_contains(orig, out@[i]);
                assert(orig.contains(out@[i]));
                let j = choose|j: int| 0 <= j < orig.len() && orig[j] == out@[i];
                assert(orig[j].wf());
            }
        }
    }
    out
}

enum RootPhase {
    Start,
    AwaitRoot,
    AwaitChildren,
    Finished,
}

/// What the root ranking asks of the caller next: fetch these keys, give
/// up because the position is absent or cannot seed the requested number
/// of variations, or start a descent per seed.
#[derive(Debug)]
pub enum RootStep {
    Fetch(Vec<Vec<u8>>),
    NotFound,
    Seeds(Vec<PvSeed>),
}

/// The good-reply count a fetched child value stands for: how many of the
/// decoded moves score at least zero, an absent child counting zero.
pub open spec fn spec_good_of_reply(f: Fetched, order: NaturalOrder) -> int {
    match f {
        Fetched::Missing => 0,
        Fetched::Value(b) => count_good_from(spec_decode(b@, order).unwrap().0, 0),
        Fetched::Failed(_) => 0,
    }
}

/// Ranks the root moves of a position for a multi-variation query: it
/// fetches the position's value, keeps the best equal-scored prefix of at
/// least `multi_pv` moves, fetches each candidate's child position to
/// count the opponent's good replies there, and hands back the top
/// `multi_pv` candidates ordered by score and then by fewest good replies,
/// each carrying its child's moves for the descent to reuse.
pub struct MultiPvRoot {
    pos: shakmaty::Chess,
    multi_pv: usize,
    phase: RootPhase,
    root_order: NaturalOrder,
    cand_uci: Vec<UciMove>,
    cand_scores: Vec<i16>,
    cand_rendered: Vec<UciMove>,
    cand_children: Vec<shakmaty::Chess>,
    cand_orders: Vec<NaturalOrder>,
}

impl MultiPvRoot {
    pub closed spec fn spec_multi_pv(&self) -> int {
        self.multi_pv as int
    }

    pub closed spec fn is_finished(&self) -> bool {
        self.phase is Finished
    }

    /// Whether the next reply answers the root position's own value.
    pub closed spec fn awaiting_root(&self) -> bool {
        self.phase is AwaitRoot
    }

    /// Whether the next replies answer the candidates' child values.
    pub closed spec fn awaiting_children(&self) -> bool {
        self.phase is AwaitChildren
    }

    /// The orientation the awaited root value will be decoded with: that
    /// of the root position's canonical key.
    pub closed spec fn awaited_order(&self) -> NaturalOrder {
        self.root_order
    }

    /// The root position.
    pub closed spec fn spec_pos(&self) -> shakmaty::Chess {
        self.pos
    }

    /// The candidates' moves, as the root value encoded them.
    pub closed spec fn spec_cand_uci(&self) -> Seq<UciMove> {
        self.cand_uci@
    }

    /// The candidates' scores.
    pub closed spec fn spec_cand_scores(&self) -> Seq<i16> {
        self.cand_scores@
    }

    /// The key orientations of the candidates' children.
    pub closed spec fn spec_cand_orders(&self) -> Seq<NaturalOrder> {
        self.cand_orders@
    }

    /// How far the ranking has come: it only moves forward, one fetch per
    /// step, so a caller that answers every `Fetch` is done in two rounds.
    pub closed spec fn spec_round(&self) -> int {
        match self.phase {
            RootPhase::Start => 0,
            RootPhase::AwaitRoot => 1,
            RootPhase::AwaitChildren => 2,
            RootPhase::Finished => 3,
        }
    }

    /// The keys of a pending child fetch ask for the canonical key of each
    /// candidate's child position, whose value the matching orientation
    /// will decode.
    pub closed spec fn cand_keys_ok(&self, keys: Seq<Vec<u8>>) -> bool {
        &&& keys.len() == self.cand_children@.len()
        &&& forall|i: int|
            0 <= i < keys.len() ==> (#[trigger] keys[i])@ == crate::chess::spec_pos_key(
                self.cand_children@[i],
            ) && self.cand_orders@[i] == crate::chess::spec_pos_order(self.cand_children@[i])
    }

    /// The candidates are the best equal-scored prefix of at least
    /// `multi_pv` of the given moves: there is a descending-score ordering
    /// of exactly those moves whose prefix of at least `multi_pv` (tied
    /// moves included) the candidates are, each carrying that move and
    /// score, with the child position and printed move that playing it
    /// from `pos` returns.
    pub closed spec fn cands_from(&self, moves: Seq<ScoredMove>, pos: shakmaty::Chess) -> bool {
        exists|t: Seq<ScoredMove>|
            (#[trigger] t.to_multiset()) == moves.to_multiset() && sorted_desc(t) && ({
                let best = if self.multi_pv >= 1 {
                    take_while_ge(
                        t,
                        if self.multi_pv - 1 < t.len() {
                            t[self.multi_pv - 1].score.0 as int
                        } else {
                            i16::MIN as int
                        },
                    )
                } else {
                    Seq::<ScoredMove>::empty()
                };
                &&& self.cand_uci@.len() == best.len()
                &&& self.cand_scores@.len() == best.len()
                &&& self.cand_children@.len() == best.len()
                &&& self.cand_rendered@.len() == best.len()
                &&& forall|i: int|
                    0 <= i < best.len() ==> self.cand_uci@[i] == (#[trigger] best[i]).uci
                        && self.cand_scores@[i] == best[i].score.0 && spec_play_move(
                        pos,
                        best[i],
                    ) is Some && self.cand_children@[i] == spec_play_move(
                        pos,
                        best[i],
                    ).unwrap().0 && self.cand_rendered@[i] == rendered_of(
                        spec_play_move(pos, best[i]).unwrap(),
                    )
            })
    }

    /// How many reply values the next call of `next` consumes.
    pub closed spec fn spec_expected_replies(&self) -> int {
        match self.phase {
            RootPhase::Start => 0,
            RootPhase::AwaitRoot => 1,
            RootPhase::AwaitChildren => self.cand_children@.len() as int,
            RootPhase::Finished => 0,
        }
    }

    /// How many reply values the next call of `next` consumes.
    pub fn expected_replies(&self) -> (r: usize)
        ensures
            r == self.spec_expected_replies(),
    {
        match self.phase {
            RootPhase::Start => 0,
            RootPhase::AwaitRoot => 1,
            RootPhase::AwaitChildren => self.cand_children.len(),
            RootPhase::Finished => 0,
        }
    }

    pub closed spec fn inv(&self) -> bool {
        self.phase is AwaitChildren ==> self.cand_children@.len() >= 1 && self.cand_orders@.len()
            == self.cand_children@.len() && self.cand_rendered@.len() == self.cand_children@.len()
            && self.cand_scores@.len() == self.cand_children@.len() && self.cand_uci@.len()
            == self.cand_children@.len() && line_wf(self.cand_rendered@) && line_wf(
            self.cand_uci@,
        )
    }

    /// A ranking of the root moves of `pos` for `multi_pv` variations.
    pub fn start(pos: shakmaty::Chess, multi_pv: usize) -> (r: MultiPvRoot)
        ensures
            r.inv(),
            r.spec_multi_pv() == multi_pv,
            r.spec_round() == 0,
            r.spec_pos() == pos,
    {
        MultiPvRoot {
            pos,
            multi_pv,
            phase: RootPhase::Start,
            root_order: NaturalOrder::Same,
            cand_uci: Vec::new(),
            cand_scores: Vec::new(),
            cand_rendered: Vec::new(),
            cand_children: Vec::new(),
            cand_orders: Vec::new(),
        }
    }

    /// Runs the ranking one step: the replies answer the previous `Fetch`
    /// (none for the first call). `NotFound` when the position is absent
    /// from the store, or has fewer stored moves than both the request and
    /// its legal moves. `Seeds` carries at most `multi_pv` seeds, ordered
    /// by descending score and then by ascending count of good replies,
    /// each pairing a candidate with the good-reply count its child value
    /// decodes to.
    pub fn next(&mut self, reply: Vec<Fetched>) -> (r: Result<RootStep, Error>)
        requires
            old(self).inv(),
        ensures
            final(self).inv(),
            final(self).spec_multi_pv() == old(self).spec_multi_pv(),
            final(self).spec_round() >= old(self).spec_round(),
            r matches Ok(RootStep::Fetch(keys)) ==> keys@.len() >= 1 && keys@.len() == final(
                self).spec_expected_replies() && final(self).spec_round() > old(self).spec_round(),
            r matches Ok(RootStep::Fetch(keys)) ==> (final(self).awaiting_root() ==> keys@.len()
                == 1 && keys@[0]@ == crate::chess::spec_pos_key(final(self).spec_pos())
                && final(self).awaited_order() == crate::chess::spec_pos_order(
                final(self).spec_pos(),
            )),
            r matches Ok(RootStep::Fetch(keys)) ==> (final(self).awaiting_children() ==> final(
                self).cand_keys_ok(keys@) && final(self).spec_pos() == old(self).spec_pos()),
            old(self).awaiting_root() && reply@.len() == 1 && reply@[0] is Missing ==> (r matches
            Ok(RootStep::NotFound)),
            old(self).awaiting_root() && reply@.len() == 1 ==> (reply@[0] matches Fetched::Failed(
                msg) ==> (r matches Err(e) && e == Error::DbError(msg))),
            old(self).awaiting_root() && reply@.len() == 1 ==> (reply@[0] matches Fetched::Value(
                bytes) ==> (spec_decode(bytes@, old(self).awaited_order()) is None ==> (r matches
            Err(e) && e == Error::MalformedBlob))),
            old(self).awaiting_root() && reply@.len() == 1 ==> (reply@[0] matches Fetched::Value(
                bytes) ==> (spec_decode(bytes@, old(self).awaited_order()) matches Some(dec)
                ==> (r is Ok ==> ((r matches Ok(RootStep::NotFound)) <==> dec.0.len() < old(
                self).spec_multi_pv() && dec.0.len() < crate::chess::legal_count_of(
                old(self).spec_pos(),
            ))))),
            old(self).awaiting_root() && reply@.len() == 1 ==> (reply@[0] matches Fetched::Value(
                bytes) ==> (spec_decode(bytes@, old(self).awaited_order()) matches Some(dec)
                ==> ((r matches Ok(RootStep::Fetch(keys))) ==> final(self).cands_from(
                dec.0,
                old(self).spec_pos(),
            ) && final(self).awaiting_children()))),
            old(self).spec_round() == 0 ==> (r matches Ok(RootStep::Fetch(_))) && final(
                self).awaiting_root(),
            r matches Ok(RootStep::Seeds(seeds)) ==> old(self).awaiting_children() || seeds@.len()
                == 0,
            old(self).awaiting_root() && reply@.len() == 1 ==> (reply@[0] matches Fetched::Value(
                bytes) ==> (spec_decode(bytes@, old(self).awaited_order()) matches Some(dec)
                ==> (r is Ok && !(dec.0.len() < old(self).spec_multi_pv() && dec.0.len()
                    < crate::chess::legal_count_of(old(self).spec_pos())) && old(
                    self).spec_multi_pv() >= 1 && dec.0.len() >= 1 ==> (r matches Ok(
                RootStep::Fetch(_),
            )) && final(self).awaiting_children()))),
            old(self).awaiting_root() && reply@.len() == 1 ==> (reply@[0] matches Fetched::Value(
                bytes) ==> (spec_decode(bytes@, old(self).awaited_order()) matches Some(dec)
                ==> (!(dec.0.len() < old(self).spec_multi_pv() && dec.0.len()
                    < crate::chess::legal_count_of(old(self).spec_pos())) && (old(
                    self).spec_multi_pv() == 0 || dec.0.len() == 0) ==> (r matches Ok(
                RootStep::Seeds(seeds)) && seeds@.len() == 0)))),
            r matches Ok(RootStep::Seeds(seeds)) ==> final(self).is_finished() && seeds@.len()
                <= old(self).spec_multi_pv() && (forall|i: int, j: int|
                0 <= i <= j < seeds@.len() ==> seed_le(seeds@[i], seeds@[j])) && (forall|i: int|
                0 <= i < seeds@.len() ==> (#[trigger] seeds@[i]).wf()),
            (old(self).awaiting_children() && reply@.len() == old(self).spec_expected_replies()
                && (forall|j: int| 0 <= j < reply@.len() ==> !((#[trigger] reply@[j]) is Failed))
                && (forall|j: int|
                0 <= j < reply@.len() ==> ((#[trigger] reply@[j]) matches Fetched::Value(b)
                    ==> spec_decode(b@, old(self).spec_cand_orders()[j]) is Some))) ==> (r matches
            Ok(RootStep::Seeds(seeds)) && seeds@.len() == vstd::math::min(
                old(self).spec_multi_pv(),
                reply@.len() as int,
            ) && (forall|i: int|
                0 <= i < seeds@.len() ==> exists|j: int|
                    0 <= j < reply@.len() && (#[trigger] seeds@[i]).spec_uci() == old(
                        self,
                    ).spec_cand_uci()[j] && seeds@[i].spec_score() == old(
                        self,
                    ).spec_cand_scores()[j] && seeds@[i].spec_good_replies()
                        == spec_good_of_reply(reply@[j], old(self).spec_cand_orders()[j]))),
            old(self).awaiting_children() && reply@.len() == old(self).spec_expected_replies()
                && (exists|j: int| 0 <= j < reply@.len() && (#[trigger] reply@[j]) is Failed)
                ==> r is Err,
            r matches Ok(RootStep::NotFound) ==> final(self).is_finished(),
            r matches Err(e) ==> final(self).is_finished() && (e is DbError
                || e is MalformedBlob),
    {
        match self.phase {
            RootPhase::Finished => Ok(RootStep::NotFound),
            RootPhase::Start => {
                let model = position_of_chess(&self.pos);
                let (key, order) = cdb_fen(&model);
                self.root_order = order;
                self.phase = RootPhase::AwaitRoot;
                let key_bytes = key.into_bytes();
                proof {
                    assert(key_bytes@ == crate::chess::spec_pos_key(self.pos));
                }
                let mut keys: Vec<Vec<u8>> = Vec::new();
                keys.push(key_bytes);
                Ok(RootStep::Fetch(keys))
            },
            RootPhase::AwaitRoot => {
                self.phase = RootPhase::Finished;
                if reply.len() != 1 {
                    return Ok(RootStep::NotFound);
                }
                match &reply[0] {
                    Fetched::Failed(msg) => Err(Error::DbError(msg.clone())),
                    Fetched::Missing => Ok(RootStep::NotFound),
                    Fetched::Value(bytes) => {
                        match ScoredMoves::read_cdb(bytes.as_slice(), self.root_order) {
                            Err(_) => Err(Error::MalformedBlob),
                            Ok(sm) => {
                                let ghost dec0 = sm.spec_moves();
                                let sorted = sm.into_sorted();
                                proof {
                                    lemma_decode_moves_wf(bytes@, self.root_order);
                                    lemma_moves_wf_multiset(sm.spec_moves(), sorted.spec_moves());
                                    vstd::seq_lib::to_multiset_len(dec0);
                                    vstd::seq_lib::to_multiset_len(sorted.spec_moves());
                                }
                                if sorted.len() < self.multi_pv && sorted.len()
                                    < legal_move_count(&self.pos) {
                                    return Ok(RootStep::NotFound);
                                }
                                let ghost sorted_moves = sorted.spec_moves();
                                let best = sorted.into_best_moves(self.multi_pv);
                                proof {
                                    if self.multi_pv >= 1 {
                                        let min = if self.multi_pv - 1 < sorted_moves.len() {
                                            sorted_moves[self.multi_pv - 1].score.0 as int
                                        } else {
                                            i16::MIN as int
                                        };
                                        crate::cdb_moves::lemma_take_while_ge(
                                            sorted_moves,
                                            min,
                                            0,
                                        );
                                        crate::cdb_moves::lemma_best_prefix(
                                            sorted_moves,
                                            self.multi_pv as int,
                                        );
                                        lemma_moves_wf_take(
                                            sorted_moves,
                                            best.spec_moves().len() as int,
                                        );
                                    }
                                }
                                let best_moves = best.into_moves();
                                let n = best_moves.len();
                                if n == 0 {
                                    return Ok(RootStep::Seeds(Vec::new()));
                                }
                                proof {
                                    assert(self.multi_pv >= 1);
                                    assert(best_moves@ == sorted_moves.take(n as int));
                                    assert(n <= sorted_moves.len());
                                    assert(vstd::math::min(
                                        self.multi_pv as int,
                                        sorted_moves.len() as int,
                                    ) <= n);
                                }
                                let mut uci_moves: Vec<UciMove> = Vec::new();
                                let mut scores: Vec<i16> = Vec::new();
                                let mut children: Vec<shakmaty::Chess> = Vec::new();
                                let mut orders: Vec<NaturalOrder> = Vec::new();
                                let mut rendered: Vec<UciMove> = Vec::new();
                                let mut keys: Vec<Vec<u8>> = Vec::new();
                                let mut i: usize = 0;
                                while i < n
                                    invariant
                                        n == best_moves@.len(),
                                        n >= 1,
                                        self.multi_pv >= 1,
                                        moves_wf(best_moves@),
                                        best_moves@ == sorted_moves.take(n as int),
                                        best_moves@ == take_while_ge(
                                            sorted_moves,
                                            if self.multi_pv - 1 < sorted_moves.len() {
                                                sorted_moves[self.multi_pv - 1].score.0 as int
                                            } else {
                                                i16::MIN as int
                                            },
                                        ),
                                        n <= sorted_moves.len(),
                                        vstd::math::min(
                                            self.multi_pv as int,
                                            sorted_moves.len() as int,
                                        ) <= n,
                                        crate::cdb_moves::sorted_desc(sorted_moves),
                                        sorted_moves.to_multiset() == dec0.to_multiset(),
                                        sorted_moves.len() == dec0.len(),
                                        i <= n,
                                        uci_moves@.len() == i,
                                        scores@.len() == i,
                                        children@.len() == i,
                                        orders@.len() == i,
                                        rendered@.len() == i,
                                        keys@.len() == i,
                                        forall|t: int|
                                            0 <= t < i ==> #[trigger] uci_moves@[t]
                                                == best_moves@[t].uci,
                                        forall|t: int|
                                            0 <= t < i ==> #[trigger] scores@[t]
                                                == best_moves@[t].score.0,
                                        forall|t: int|
                                            0 <= t < i ==> (#[trigger] keys@[t])@
                                                == crate::chess::spec_pos_key(children@[t]),
                                        forall|t: int|
                                            0 <= t < i ==> #[trigger] orders@[t]
                                                == crate::chess::spec_pos_order(children@[t]),
                                        forall|t: int|
                                            0 <= t < i ==> spec_play_move(
                                                old(self).pos,
                                                #[trigger] best_moves@[t],
                                            ) is Some && children@[t] == spec_play_move(
                                                old(self).pos,
                                                best_moves@[t],
                                            ).unwrap().0 && rendered@[t] == rendered_of(
                                                spec_play_move(old(self).pos, best_moves@[t]).unwrap(),
                                            ),
                                        line_wf(rendered@),
                                        self.multi_pv == old(self).multi_pv,
                                        self.pos == old(self).pos,
                                        self.phase is Finished,
                                        old(self).phase is AwaitRoot,
                                        reply@.len() == 1 && reply@[0] is Value,
                                        reply@[0] matches Fetched::Value(b) ==> (spec_decode(
                                            b@,
                                            old(self).root_order,
                                        ) matches Some(d) && d.0 == dec0),
                                    decreases n - i,
                                {
                                    let m = best_moves[i];
                                    let pc = promotion_char(m.uci.promotion);
                                    match play_uci(&self.pos, m.uci.from, m.uci.to, pc) {
                                        None => {
                                            return Err(Error::MalformedBlob);
                                        },
                                        Some((child, rf, rt, rp)) => {
                                            let model = position_of_chess(&child);
                                            let (key, order) = cdb_fen(&model);
                                            let key_bytes = key.into_bytes();
                                            proof {
                                                assert(key_bytes@ == crate::chess::spec_pos_key(
                                                    child,
                                                ));
                                                assert(order == crate::chess::spec_pos_order(
                                                    child,
                                                ));
                                                assert(spec_play_move(
                                                    old(self).pos,
                                                    best_moves@[i as int],
                                                ) == Some((child, rf, rt, rp)));
                                            }
                                            keys.push(key_bytes);
                                            children.push(child);
                                            orders.push(order);
                                            rendered.push(
                                                UciMove {
                                                    from: rf,
                                                    to: rt,
                                                    promotion: crate::chess::promotion_of_char(rp),
                                                },
                                            );
                                            uci_moves.push(m.uci);
                                            scores.push(m.score.0);
                                            proof {
                                                assert(children@[i as int] == child);
                                                assert(uci_moves@[i as int] == m.uci);
                                                assert(scores@[i as int] == m.score.0);
                                                assert((keys@[i as int])@
                                                    == crate::chess::spec_pos_key(
                                                    children@[i as int],
                                                ));
                                                assert(orders@[i as int]
                                                    == crate::chess::spec_pos_order(
                                                    children@[i as int],
                                                ));
                                                assert(rendered@[i as int] == rendered_of(
                                                    (child, rf, rt, rp),
                                                ));
                                                assert(rendered@[i as int].from < 64
                                                    && rendered@[i as int].to < 64);
                                            }
                                        },
                                    }
                                    i += 1;
                                }
                                self.cand_uci = uci_moves;
                                self.cand_scores = scores;
                                self.cand_children = children;
                                self.cand_orders = orders;
                                self.cand_rendered = rendered;
                                self.phase = RootPhase::AwaitChildren;
                                proof {
                                    assert(self.cand_keys_ok(keys@));
                                    assert(self.cands_from(dec0, old(self).pos));
                                }
                                Ok(RootStep::Fetch(keys))
                            },
                        }
                    },
                }
            },
            RootPhase::AwaitChildren => {
                self.phase = RootPhase::Finished;
                let n = self.cand_children.len();
                let mut uci_moves: Vec<UciMove> = Vec::new();
                let mut children: Vec<shakmaty::Chess> = Vec::new();
                let mut scores: Vec<i16> = Vec::new();
                let mut orders: Vec<NaturalOrder> = Vec::new();
                let mut rendered: Vec<UciMove> = Vec::new();
                core::mem::swap(&mut uci_moves, &mut self.cand_uci);
                core::mem::swap(&mut children, &mut self.cand_children);
                core::mem::swap(&mut scores, &mut self.cand_scores);
                core::mem::swap(&mut orders, &mut self.cand_orders);
                core::mem::swap(&mut rendered, &mut self.cand_rendered);
                if reply.len() != n {
                    return Ok(RootStep::NotFound);
                }
                let mut seeds: Vec<PvSeed> = Vec::new();
                let mut i: usize = 0;
                while i < n
                    invariant
                        n == reply@.len(),
                        n == uci_moves@.len(),
                        n == scores@.len(),
                        n == orders@.len(),
                        n == rendered@.len(),
                        children@.len() == n - i,
                        i <= n,
                        seeds@.len() == i,
                        uci_moves@ == old(self).cand_uci@,
                        scores@ == old(self).cand_scores@,
                        orders@ == old(self).cand_orders@,
                        line_wf(uci_moves@),
                        line_wf(rendered@),
                        forall|t: int| 0 <= t < i ==> (#[trigger] seeds@[t]).wf(),
                        forall|t: int|
                            0 <= t < i ==> (#[trigger] seeds@[t]).spec_uci() == uci_moves@[t]
                                && seeds@[t].spec_score() == scores@[t]
                                && seeds@[t].spec_good_replies() == spec_good_of_reply(
                                reply@[t],
                                orders@[t],
                            ),
                        forall|t: int| 0 <= t < i ==> !((#[trigger] reply@[t]) is Failed),
                        self.multi_pv == old(self).multi_pv,
                        self.phase is Finished,
                        old(self).phase is AwaitChildren,
                        self.cand_uci@.len() == 0,
                        self.cand_children@.len() == 0,
                        self.cand_scores@.len() == 0,
                        self.cand_orders@.len() == 0,
                        self.cand_rendered@.len() == 0,
                    decreases n - i,
                {
                    let child = children.remove(0);
                    let (good_replies, cached): (usize, Option<ScoredMoves>) = match &reply[i] {
                        Fetched::Failed(msg) => {
                            return Err(Error::DbError(msg.clone()));
                        },
                        Fetched::Missing => (0, None),
                        Fetched::Value(bytes) => {
                            match ScoredMoves::read_cdb(bytes.as_slice(), orders[i]) {
                                Err(_) => {
                                    return Err(Error::MalformedBlob);
                                },
                                Ok(sm) => {
                                    proof {
                                        lemma_decode_moves_wf(bytes@, orders@[i as int]);
                                    }
                                    (sm.num_good_moves(), Some(sm))
                                },
                            }
                        },
                    };
                    seeds.push(
                        PvSeed {
                            uci: uci_moves[i],
                            rendered: rendered[i],
                            score: scores[i],
                            good_replies,
                            child,
                            cached,
                        },
                    );
                    i += 1;
                }
                let ghost built = seeds@;
                let mut sorted = sort_seeds(seeds);
                let ghost sorted_full = sorted@;
                sorted.truncate(self.multi_pv);
                proof {
                    broadcast use vstd::seq_lib::to_multiset_contains;

                    assert(sorted@.len() <= self.multi_pv);
                    assert(sorted@.len() == vstd::math::min(self.multi_pv as int, n as int));
                    assert forall|t: int| 0 <= t < sorted@.len() implies exists|j: int|
                        0 <= j < reply@.len() && (#[trigger] sorted@[t]).spec_uci() == old(
                            self,
                        ).cand_uci@[j] && sorted@[t].spec_score() == old(self).cand_scores@[j]
                        && sorted@[t].spec_good_replies() == spec_good_of_reply(
                        reply@[j],
                        old(self).cand_orders@[j],
                    ) by {
                        assert(sorted@[t] == sorted_full[t]);
                        assert(sorted_full.contains(sorted_full[t]));
                        assert(sorted_full.to_multiset().count(sorted_full[t]) > 0);
                        assert(built.contains(sorted_full[t]));
                        let u = choose|u: int| 0 <= u < built.len() && built[u] == sorted_full[t];
                        assert(0 <= u < reply@.len());
                        assert(sorted@[t].spec_uci() == old(self).spec_cand_uci()[u]);
                        assert(sorted@[t].spec_score() == old(self).spec_cand_scores()[u]);
                        assert(sorted@[t].spec_good_replies() == spec_good_of_reply(
                            reply@[u],
                            old(self).spec_cand_orders()[u],
                        ));
                    }
                }
                Ok(RootStep::Seeds(sorted))
            },
        }
    }
}

} // verus!
