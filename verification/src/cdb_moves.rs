use vstd::prelude::*;

use crate::cdb_fen::NaturalOrder;
use crate::error::Error;

verus! {

/// A promotion piece of the value format: queen, rook, bishop or knight.
#[derive(Debug, Clone, Copy, PartialEq, Eq)]
pub enum PromotionRole {
    Queen,
    Rook,
    Bishop,
    Knight,
}

/// A move as the value format describes it: source and destination square
/// (indexed `8 * rank + file`), and the promotion piece if any.
#[derive(Debug, Clone, Copy, PartialEq, Eq)]
pub struct UciMove {
    pub from: u8,
    pub to: u8,
    pub promotion: Option<PromotionRole>,
}

/// A centipawn score from the side to move's point of view.
#[derive(Debug, Clone, Copy, PartialEq, Eq, PartialOrd, Ord)]
pub struct RelativeScore(pub i16);

/// A move with its score.
#[derive(Debug, Clone, Copy, PartialEq, Eq)]
pub struct ScoredMove {
    pub uci: UciMove,
    pub score: RelativeScore,
}

// ---------------------------------------------------------------------------
// The record format.
// ---------------------------------------------------------------------------

/// The signed 16-bit value of two little-endian bytes.
pub open spec fn le_i16(lo: u8, hi: u8) -> int {
    let u = lo + 256 * hi;
    if u >= 32768 {
        u - 65536
    } else {
        u
    }
}

/// A valid square index of the 10-by-9 decoding table: rows 1 to 8 carry
/// ranks 1 to 8, columns 0 to 7 carry files a to h; row 0, row 9 and
/// column 8 are padding.
pub open spec fn valid_sq90(x: int) -> bool {
    9 <= x <= 80 && x % 9 != 8
}

/// The square (indexed `8 * rank + file`) of a valid table index.
pub open spec fn sq90_to_sq(x: int) -> int {
    8 * (x / 9 - 1) + x % 9
}

/// Decodes one non-sentinel record into a move, if it is well-formed:
/// the source must be a valid table index; without the promotion bit the
/// destination must be one too; with it, the source rank must be the
/// seventh (going to the eighth) or the second (going to the first), the
/// destination column gives the file, and the destination row names the
/// promotion piece (rows 0 and 9 the queen, rows 1 to 3 rook, bishop and
/// knight). A stored score of -32768 cannot be negated and is refused.
pub open spec fn spec_decode_move(dst: u8, src: u8, score: int) -> Option<ScoredMove> {
    if score == -32768 {
        None
    } else if !valid_sq90(src as int) {
        None
    } else {
        let from = sq90_to_sq(src as int);
        let d7 = (dst as int) % 128;
        if dst < 128 {
            if valid_sq90(d7) {
                Some(
                    ScoredMove {
                        uci: UciMove {
                            from: from as u8,
                            to: sq90_to_sq(d7) as u8,
                            promotion: None,
                        },
                        score: RelativeScore((0 - score) as i16),
                    },
                )
            } else {
                None
            }
        } else {
            let to_rank: int = if src as int / 9 == 7 {
                7
            } else if src as int / 9 == 2 {
                0
            } else {
                -1
            };
            if to_rank == -1 || d7 >= 90 || d7 % 9 == 8 {
                None
            } else {
                let row = d7 / 9;
                let promotion: Option<PromotionRole> = if row == 0 || row == 9 {
                    Some(PromotionRole::Queen)
                } else if row == 1 {
                    Some(PromotionRole::Rook)
                } else if row == 2 {
                    Some(PromotionRole::Bishop)
                } else if row == 3 {
                    Some(PromotionRole::Knight)
                } else {
                    None
                };
                if promotion is None {
                    None
                } else {
                    Some(
                        ScoredMove {
                            uci: UciMove {
                                from: from as u8,
                                to: (8 * to_rank + d7 % 9) as u8,
                                promotion,
                            },
                            score: RelativeScore((0 - score) as i16),
                        },
                    )
                }
            }
        }
    }
}

/// The moves and `ply_from_root` of the records from offset `i` on: each
/// record takes four bytes `dst`, `src` and a little-endian score; the
/// record with `src == 0` and `dst == 0` carries `ply_from_root` instead
/// of a move (a later one wins), and its score must not be negative.
pub open spec fn spec_decode_rec(b: Seq<u8>, i: int) -> Option<(Seq<ScoredMove>, Option<u32>)>
    decreases b.len() - i,
{
    if i == b.len() {
        Some((Seq::empty(), None::<u32>))
    } else if i < 0 || i + 4 > b.len() {
        None
    } else {
        let dst = b[i];
        let src = b[i + 1];
        let score = le_i16(b[i + 2], b[i + 3]);
        match spec_decode_rec(b, i + 4) {
            None => None,
            Some((ms, pl)) => {
                if src == 0 && dst == 0 {
                    if score < 0 {
                        None
                    } else {
                        Some(
                            (
                                ms,
                                if pl is Some {
                                    pl
                                } else {
                                    Some(score as u32)
                                },
                            ),
                        )
                    }
                } else {
                    match spec_decode_move(dst, src, score) {
                        Some(m) => Some((seq![m] + ms, pl)),
                        None => None,
                    }
                }
            },
        }
    }
}

/// The color-mirror of a move: both squares flip their rank, the
/// promotion piece stays.
pub open spec fn spec_mirror_move(m: ScoredMove) -> ScoredMove {
    ScoredMove {
        uci: UciMove { from: m.uci.from ^ 56, to: m.uci.to ^ 56, promotion: m.uci.promotion },
        score: m.score,
    }
}

/// What a value blob decodes to: nothing when its length is not a
/// multiple of four or a record is malformed; otherwise the moves in
/// record order — mirrored when the key was the mirrored encoding — and
/// the `ply_from_root` if a sentinel record carried one.
pub open spec fn spec_decode(b: Seq<u8>, order: NaturalOrder) -> Option<
    (Seq<ScoredMove>, Option<u32>),
> {
    if b.len() % 4 != 0 {
        None
    } else {
        match spec_decode_rec(b, 0) {
            None => None,
            Some((ms, pl)) => Some(
                (
                    if order is Mirror {
                        ms.map_values(|m: ScoredMove| spec_mirror_move(m))
                    } else {
                        ms
                    },
                    pl,
                ),
            ),
        }
    }
}

// ---------------------------------------------------------------------------
// The decoder.
// ---------------------------------------------------------------------------

/// A list of scored moves with an optional `ply_from_root`, as decoded
/// from a value blob.
#[derive(Debug)]
pub struct ScoredMoves {
    moves: Vec<ScoredMove>,
    ply_from_root: Option<u32>,
}

impl ScoredMoves {
    pub closed spec fn spec_moves(&self) -> Seq<ScoredMove> {
        self.moves@
    }

    pub closed spec fn spec_ply(&self) -> Option<u32> {
        self.ply_from_root
    }

    pub fn new() -> (r: ScoredMoves)
        ensures
            r.spec_moves() == Seq::<ScoredMove>::empty(),
            r.spec_ply() is None,
    {
        ScoredMoves { moves: Vec::new(), ply_from_root: None }
    }

    pub fn with_capacity(moves: usize) -> (r: ScoredMoves)
        ensures
            r.spec_moves() == Seq::<ScoredMove>::empty(),
            r.spec_ply() is None,
    {
        ScoredMoves { moves: Vec::with_capacity(moves), ply_from_root: None }
    }

    pub fn is_empty(&self) -> (r: bool)
        ensures
            r == (self.spec_moves().len() == 0),
    {
        self.moves.len() == 0
    }

    pub fn len(&self) -> (r: usize)
        ensures
            r == self.spec_moves().len(),
    {
        self.moves.len()
    }

    pub fn ply_from_root(&self) -> (r: Option<u32>)
        ensures
            r == self.spec_ply(),
    {
        self.ply_from_root
    }

    pub fn moves(&self) -> (r: &[ScoredMove])
        ensures
            r@ == self.spec_moves(),
    {
        self.moves.as_slice()
    }

    pub fn clear(&mut self)
        ensures
            final(self).spec_moves() == Seq::<ScoredMove>::empty(),
            final(self).spec_ply() is None,
    {
        self.moves.clear();
        self.ply_from_root = None;
    }

    /// Flips every move to its color-mirror.
    fn mirror(&mut self)
        ensures
            final(self).spec_moves() == old(self).spec_moves().map_values(
                |m: ScoredMove| spec_mirror_move(m),
            ),
            final(self).spec_ply() == old(self).spec_ply(),
    {
        let ghost orig = self.moves@;
        let n = self.moves.len();
        let mut i: usize = 0;
        while i < n
            invariant
                n == self.moves@.len(),
                n == orig.len(),
                i <= n,
                self.ply_from_root == old(self).ply_from_root,
                forall|j: int| 0 <= j < i ==> self.moves@[j] == spec_mirror_move(orig[j]),
                forall|j: int| i <= j < n ==> self.moves@[j] == orig[j],
            decreases n - i,
        {
            let m = self.moves[i];
            self.moves.set(
                i,
                ScoredMove {
                    uci: UciMove {
                        from: m.uci.from ^ 56,
                        to: m.uci.to ^ 56,
                        promotion: m.uci.promotion,
                    },
                    score: m.score,
                },
            );
            i += 1;
        }
        proof {
            assert(self.moves@ =~= orig.map_values(|m: ScoredMove| spec_mirror_move(m)));
        }
    }

    /// Decodes a value blob: four bytes per record, `dst`, `src`, then a
    /// little-endian signed score, negated on decode so that scores read
    /// from the side to move's point of view; the all-zero square pair is
    /// the sentinel carrying `ply_from_root`. Moves are mirrored when the
    /// canonical key was the mirrored encoding. Fails on a length not a
    /// multiple of four, an invalid square index, an illegal promotion
    /// encoding, a score of -32768 on a move record, or a negative
    /// sentinel score.
    pub fn read_cdb(bytes: &[u8], natural_order: NaturalOrder) -> (r: Result<ScoredMoves, Error>)
        ensures
            match r {
                Ok(sm) => spec_decode(bytes@, natural_order) == Some(
                    (sm.spec_moves(), sm.spec_ply()),
                ),
                Err(e) => spec_decode(bytes@, natural_order) is None && e == Error::MalformedBlob,
            },
    {
        let ghost b = bytes@;
        let n = bytes.len();
        if n % 4 != 0 {
            return Err(Error::MalformedBlob);
        }
        let mut moves: Vec<ScoredMove> = Vec::with_capacity(n / 4);
        let mut ply: Option<u32> = None;
        let mut i: usize = 0;
        while i < n
            invariant
                b == bytes@,
                n == b.len(),
                n % 4 == 0,
                i % 4 == 0,
                i <= n,
                spec_decode_rec(b, i as int) is Some ==> {
                    let rest = spec_decode_rec(b, i as int).unwrap();
                    spec_decode_rec(b, 0) == Some(
                        (
                            moves@ + rest.0,
                            if rest.1 is Some {
                                rest.1
                            } else {
                                ply
                            },
                        ),
                    )
                },
                spec_decode_rec(b, i as int) is None ==> spec_decode_rec(b, 0) is None,
            decreases n - i,
        {
            let dst = bytes[i];
            let src = bytes[i + 1];
            let lo = bytes[i + 2];
            let hi = bytes[i + 3];
            let u: u16 = lo as u16 | ((hi as u16) << 8);
            proof {
                let lo16 = lo as u16;
                let hi16 = hi as u16;
                assert(lo16 < 256 && hi16 < 256 ==> (lo16 | (hi16 << 8)) == lo16 + 256 * hi16)
                    by (bit_vector);
            }
            let ghost score = le_i16(lo, hi);
            let ghost rest = spec_decode_rec(b, i as int + 4);

            if src == 0 && dst == 0 {
                if u >= 32768 {
                    return Err(Error::MalformedBlob);
                }
                ply = Some(u as u32);
            } else {
                if u == 32768 {
                    return Err(Error::MalformedBlob);
                }
                let rel: i16 = if u > 32768 {
                    (65536u32 - u as u32) as i16
                } else {
                    0 - (u as i16)
                };
                proof {
                    assert(rel as int == 0 - score);
                }
                if !(9 <= src && src <= 80 && src % 9 != 8) {
                    return Err(Error::MalformedBlob);
                }
                let from: u8 = 8 * (src / 9 - 1) + src % 9;
                let d7: u8 = dst & 0x7f;
                proof {
                    assert(d7 == dst % 128 && ((dst >> 7) & 1 == 1 <==> dst >= 128)) by (bit_vector)
                        requires
                            d7 == (dst & 0x7f),
                    ;
                }
                let uci: UciMove = if dst < 128 {
                    if !(9 <= d7 && d7 <= 80 && d7 % 9 != 8) {
                        return Err(Error::MalformedBlob);
                    }
                    UciMove { from, to: 8 * (d7 / 9 - 1) + d7 % 9, promotion: None }
                } else {
                    let to_rank: u8 = if src / 9 == 7 {
                        7
                    } else if src / 9 == 2 {
                        0
                    } else {
                        return Err(Error::MalformedBlob);
                    };
                    if d7 >= 90 || d7 % 9 == 8 {
                        return Err(Error::MalformedBlob);
                    }
                    let row = d7 / 9;
                    let promotion: PromotionRole = if row == 0 || row == 9 {
                        PromotionRole::Queen
                    } else if row == 1 {
                        PromotionRole::Rook
                    } else if row == 2 {
                        PromotionRole::Bishop
                    } else if row == 3 {
                        PromotionRole::Knight
                    } else {
                        return Err(Error::MalformedBlob);
                    };
                    UciMove { from, to: 8 * to_rank + d7 % 9, promotion: Some(promotion) }
                };
                let m = ScoredMove { uci, score: RelativeScore(rel) };
                proof {
                    assert(spec_decode_move(dst, src, score) == Some(m));
                    if rest is Some {
                        assert(moves@ + seq![m] + rest.unwrap().0 =~= moves@ + (seq![m]
                            + rest.unwrap().0));
                    }
                }
                moves.push(m);
            }
            i += 4;
        }
        let mut r = ScoredMoves { moves, ply_from_root: ply };
        proof {
            assert(spec_decode_rec(b, n as int) == Some((Seq::<ScoredMove>::empty(), None::<u32>)));
            assert(r.moves@ + Seq::<ScoredMove>::empty() =~= r.moves@);
        }
        if matches!(natural_order, NaturalOrder::Mirror) {
            r.mirror();
        }
        Ok(r)
    }
}


// ---------------------------------------------------------------------------
// Record counts: each record is four bytes, each non-sentinel one a move.
// ---------------------------------------------------------------------------

/// The number of sentinel records from offset `i` on.
pub open spec fn count_sentinels_from(b: Seq<u8>, i: int) -> int
    decreases b.len() - i,
{
    if i < 0 || i + 4 > b.len() {
        0
    } else {
        (if b[i] == 0 && b[i + 1] == 0 {
            1int
        } else {
            0int
        }) + count_sentinels_from(b, i + 4)
    }
}

proof fn lemma_decode_rec_counts(b: Seq<u8>, i: int)
    requires
        b.len() % 4 == 0,
        0 <= i <= b.len(),
        i % 4 == 0,
        spec_decode_rec(b, i) is Some,
    ensures
        spec_decode_rec(b, i).unwrap().0.len() == (b.len() - i) / 4 - count_sentinels_from(b, i),
        spec_decode_rec(b, i).unwrap().1 is Some <==> count_sentinels_from(b, i) >= 1,
        0 <= count_sentinels_from(b, i) <= (b.len() - i) / 4,
    decreases b.len() - i,
{
    if i < b.len() {
        lemma_decode_rec_counts(b, i + 4);
        let dst = b[i];
        let src = b[i + 1];
        let score = le_i16(b[i + 2], b[i + 3]);
        let rest = spec_decode_rec(b, i + 4).unwrap();
        let here = spec_decode_rec(b, i).unwrap();
        if src == 0 && dst == 0 {
            assert(here.0 == rest.0);
            assert(here.1 is Some);
            assert(count_sentinels_from(b, i) == 1 + count_sentinels_from(b, i + 4));
        } else {
            assert(here.0 == seq![spec_decode_move(dst, src, score).unwrap()] + rest.0);
            assert(here.1 == rest.1);
            assert(count_sentinels_from(b, i) == count_sentinels_from(b, i + 4));
        }
    }
}

/// A blob that decodes has one move per four-byte record, less one per
/// sentinel record; `ply_from_root` is set exactly when a sentinel occurs.
/// With at most one sentinel the move count is the record count, less one
/// when `ply_from_root` is set.
pub proof fn lemma_decode_counts(b: Seq<u8>, order: NaturalOrder)
    requires
        spec_decode(b, order) is Some,
    ensures
        b.len() % 4 == 0,
        spec_decode(b, order).unwrap().0.len() == b.len() / 4 - count_sentinels_from(b, 0),
        spec_decode(b, order).unwrap().1 is Some <==> count_sentinels_from(b, 0) >= 1,
        count_sentinels_from(b, 0) <= 1 ==> spec_decode(b, order).unwrap().0.len() == b.len() / 4
            - (if spec_decode(b, order).unwrap().1 is Some {
            1int
        } else {
            0int
        }),
{
    lemma_decode_rec_counts(b, 0);
}

// ---------------------------------------------------------------------------
// The sorted view.
// ---------------------------------------------------------------------------

/// Sorted by descending score.
pub open spec fn sorted_desc(s: Seq<ScoredMove>) -> bool {
    forall|a: int, c: int| 0 <= a <= c < s.len() ==> s[a].score.0 >= s[c].score.0
}

/// How many moves from position `i` on have a non-negative score.
pub open spec fn count_good_from(s: Seq<ScoredMove>, i: int) -> int
    decreases s.len() - i,
{
    if i < 0 || i >= s.len() {
        0
    } else {
        (if s[i].score.0 >= 0 {
            1int
        } else {
            0int
        }) + count_good_from(s, i + 1)
    }
}

/// The longest prefix whose scores are at least `min`.
pub open spec fn take_while_ge(s: Seq<ScoredMove>, min: int) -> Seq<ScoredMove>
    decreases s.len(),
{
    if s.len() == 0 {
        s
    } else if s[0].score.0 >= min {
        seq![s[0]] + take_while_ge(s.drop_first(), min)
    } else {
        Seq::empty()
    }
}

/// The prefix of scores at least `min` is a prefix of `s`, every element
/// of it scores at least `min`, and it keeps every position whose first
/// `n` elements all score at least `min`.
pub proof fn lemma_take_while_ge(s: Seq<ScoredMove>, min: int, n: int)
    requires
        0 <= n <= s.len(),
        forall|i: int| 0 <= i < n ==> s[i].score.0 >= min,
    ensures
        take_while_ge(s, min).len() >= n,
        take_while_ge(s, min).len() <= s.len(),
        take_while_ge(s, min) == s.take(take_while_ge(s, min).len() as int),
        forall|i: int|
            0 <= i < take_while_ge(s, min).len() ==> #[trigger] take_while_ge(s, min)[i].score.0
                >= min,
    decreases s.len(),
{
    let r = take_while_ge(s, min);
    if s.len() == 0 {
        assert(r =~= s.take(0));
    } else if s[0].score.0 >= min {
        let t = s.drop_first();
        lemma_take_while_ge(
            t,
            min,
            if n > 0 {
                n - 1
            } else {
                0
            },
        );
        let rt = take_while_ge(t, min);
        assert(r == seq![s[0]] + rt);
        assert(rt == t.take(rt.len() as int));
        assert(r =~= s.take(r.len() as int));
    } else {
        assert(r =~= s.take(0));
    }
}

impl ScoredMoves {
    /// The number of moves with a score of at least zero.
    pub fn num_good_moves(&self) -> (r: usize)
        ensures
            r == count_good_from(self.spec_moves(), 0),
    {
        let ghost s = self.spec_moves();
        let n = self.moves.len();
        let mut count: usize = 0;
        let mut i: usize = 0;
        while i < n
            invariant
                s == self.spec_moves(),
                n == s.len(),
                i <= n,
                count <= i,
                count_good_from(s, 0) == count + count_good_from(s, i as int),
            decreases n - i,
        {
            if self.moves[i].score.0 >= 0 {
                count += 1;
            }
            i += 1;
        }
        count
    }

    /// Sorts the moves by descending score.
    pub fn into_sorted(self) -> (r: SortedScoredMoves)
        ensures
            sorted_desc(r.0.spec_moves()),
            r.0.spec_moves().to_multiset() == self.spec_moves().to_multiset(),
            r.0.spec_moves().len() == self.spec_moves().len(),
            r.0.spec_ply() == self.spec_ply(),
    {
        broadcast use vstd::seq_lib::to_multiset_update;
        broadcast use vstd::seq_lib::to_multiset_len;

        let ScoredMoves { mut moves, ply_from_root } = self;
        let ghost orig = moves@;
        let n = moves.len();
        let mut k: usize = 0;
        while k < n
            invariant
                n == moves@.len(),
                k <= n,
                moves@.to_multiset() == orig.to_multiset(),
                forall|a: int, c: int| 0 <= a <= c < k ==> moves@[a].score.0 >= moves@[c].score.0,
                forall|a: int, c: int|
                    0 <= a < k <= c < n ==> moves@[a].score.0 >= moves@[c].score.0,
            decreases n - k,
        {
            let mut m_idx: usize = k;
            let mut j: usize = k + 1;
            while j < n
                invariant
                    n == moves@.len(),
                    k <= m_idx < j <= n,
                    forall|t: int| k <= t < j ==> moves@[t].score.0 <= moves@[m_idx as int].score.0,
                decreases n - j,
            {
                if moves[j].score.0 > moves[m_idx].score.0 {
                    m_idx = j;
                }
                j += 1;
            }
            let ghost before = moves@;
            let a = moves[k];
            let b = moves[m_idx];
            moves.set(k, b);
            moves.set(m_idx, a);
            proof {
                broadcast use vstd::multiset::group_multiset_axioms;
                broadcast use vstd::multiset::group_multiset_properties;
                broadcast use vstd::seq_lib::to_multiset_contains;

                if m_idx == k {
                    assert(moves@ =~= before);
                } else {
                    let mid = before.update(k as int, b);
                    assert(mid[m_idx as int] == b);
                    assert(before[k as int] == a);
                    assert(before.contains(a));
                    assert(before.to_multiset().count(a) > 0);
                    vstd::seq_lib::to_multiset_update(before, k as int, b);
                    vstd::seq_lib::to_multiset_update(mid, m_idx as int, a);
                    assert(moves@ == mid.update(m_idx as int, a));
                    assert(mid.to_multiset() == before.to_multiset().insert(b).remove(a));
                    assert(moves@.to_multiset() == before.to_multiset().insert(b).remove(a).insert(
                        a,
                    ).remove(b));
                    assert(moves@.to_multiset() =~= before.to_multiset());
                }
            }
            k += 1;
        }
        proof {
            vstd::seq_lib::to_multiset_len(moves@);
            vstd::seq_lib::to_multiset_len(orig);
        }
        SortedScoredMoves(ScoredMoves { moves, ply_from_root })
    }

    /// Appends the moves of another blob to these, taking its
    /// `ply_from_root` where the blob carries one. Fails as `read_cdb`
    /// does, leaving the list unchanged.
    pub fn extend_from_cdb(&mut self, bytes: &[u8], natural_order: NaturalOrder) -> (r: Result<
        (),
        Error,
    >)
        ensures
            match r {
                Ok(()) => {
                    &&& spec_decode(bytes@, natural_order) is Some
                    &&& final(self).spec_moves() == old(self).spec_moves() + spec_decode(
                        bytes@,
                        natural_order,
                    ).unwrap().0
                    &&& final(self).spec_ply() == if spec_decode(
                        bytes@,
                        natural_order,
                    ).unwrap().1 is Some {
                        spec_decode(bytes@, natural_order).unwrap().1
                    } else {
                        old(self).spec_ply()
                    }
                },
                Err(e) => {
                    &&& spec_decode(bytes@, natural_order) is None
                    &&& e == Error::MalformedBlob
                    &&& *final(self) == *old(self)
                },
            },
    {
        match ScoredMoves::read_cdb(bytes, natural_order) {
            Ok(mut other) => {
                self.moves.append(&mut other.moves);
                if other.ply_from_root.is_some() {
                    self.ply_from_root = other.ply_from_root;
                }
                Ok(())
            },
            Err(e) => Err(e),
        }
    }
}

/// A list of scored moves known to be sorted by descending score.
#[derive(Debug)]
pub struct SortedScoredMoves(pub ScoredMoves);

impl SortedScoredMoves {
    pub open spec fn spec_moves(&self) -> Seq<ScoredMove> {
        self.0.spec_moves()
    }

    pub open spec fn spec_ply(&self) -> Option<u32> {
        self.0.spec_ply()
    }

    pub fn ply_from_root(&self) -> (r: Option<u32>)
        ensures
            r == self.spec_ply(),
    {
        self.0.ply_from_root()
    }

    pub fn moves(&self) -> (r: &[ScoredMove])
        ensures
            r@ == self.spec_moves(),
    {
        self.0.moves()
    }

    pub fn into_moves(self) -> (r: Vec<ScoredMove>)
        ensures
            r@ == self.spec_moves(),
    {
        self.0.moves
    }

    pub fn is_empty(&self) -> (r: bool)
        ensures
            r == (self.spec_moves().len() == 0),
    {
        self.0.is_empty()
    }

    pub fn len(&self) -> (r: usize)
        ensures
            r == self.spec_moves().len(),
    {
        self.0.len()
    }

    /// The best equal-scored prefix of at least `at_least` moves: the
    /// longest prefix whose scores reach the score of move `at_least - 1`
    /// (every move when `at_least` exceeds the length; nothing when it is
    /// zero). `ply_from_root` is kept.
    pub fn into_best_moves(self, at_least: usize) -> (r: SortedScoredMoves)
        ensures
            r.spec_ply() == self.spec_ply(),
            at_least == 0 ==> r.spec_moves() == Seq::<ScoredMove>::empty(),
            at_least >= 1 ==> r.spec_moves() == take_while_ge(
                self.spec_moves(),
                if at_least - 1 < self.spec_moves().len() {
                    self.spec_moves()[at_least - 1].score.0 as int
                } else {
                    i16::MIN as int
                },
            ),
    {
        let ghost s = self.spec_moves();
        let SortedScoredMoves(ScoredMoves { moves, ply_from_root }) = self;
        if at_least < 1 {
            return SortedScoredMoves(ScoredMoves { moves: Vec::new(), ply_from_root });
        }
        let n = moves.len();
        let min_score: i16 = if at_least - 1 < n {
            moves[at_least - 1].score.0
        } else {
            i16::MIN
        };
        let ghost min = min_score as int;
        let mut out: Vec<ScoredMove> = Vec::new();
        let mut i: usize = 0;
        proof {
            assert(s.skip(0) =~= s);
        }
        while i < n
            invariant_except_break
                n == moves@.len(),
                s == moves@,
                i <= n,
                out@.len() == i,
                min == min_score as int,
                take_while_ge(s, min) == out@ + take_while_ge(s.skip(i as int), min),
            ensures
                out@ == take_while_ge(s, min),
            decreases n - i,
        {
            proof {
                assert(s.skip(i as int)[0] == s[i as int]);
                assert(s.skip(i as int).drop_first() =~= s.skip(i as int + 1));
            }
            if moves[i].score.0 < min_score {
                proof {
                    assert(take_while_ge(s.skip(i as int), min) =~= Seq::<ScoredMove>::empty());
                    assert(take_while_ge(s, min) =~= out@);
                }
                break ;
            }
            out.push(moves[i]);
            proof {
                assert(out@ + take_while_ge(s.skip(i as int + 1), min) =~= out@.drop_last() + (seq![
                    s[i as int],
                ] + take_while_ge(s.skip(i as int + 1), min)));
            }
            i += 1;
            proof {
                if i == n {
                    assert(s.skip(n as int).len() == 0);
                    assert(take_while_ge(s, min) =~= out@);
                }
            }
        }
        SortedScoredMoves(ScoredMoves { moves: out, ply_from_root })
    }

    /// The moves sharing the top score.
    pub fn into_best_moves_top(self) -> (r: SortedScoredMoves)
        ensures
            r.spec_ply() == self.spec_ply(),
            self.spec_moves().len() == 0 ==> r.spec_moves() == Seq::<ScoredMove>::empty(),
            self.spec_moves().len() >= 1 ==> r.spec_moves() == take_while_ge(
                self.spec_moves(),
                self.spec_moves()[0].score.0 as int,
            ),
    {
        self.into_best_moves(1)
    }
}

/// The best equal-scored prefix keeps at least `min(k, len)` moves, each
/// scoring at least the score of move `k - 1`, and is a prefix of the
/// sorted list.
pub proof fn lemma_best_prefix(s: Seq<ScoredMove>, k: int)
    requires
        sorted_desc(s),
        1 <= k,
    ensures
        ({
            let min = if k - 1 < s.len() {
                s[k - 1].score.0 as int
            } else {
                i16::MIN as int
            };
            let r = take_while_ge(s, min);
            &&& r.len() >= vstd::math::min(k, s.len() as int)
            &&& r == s.take(r.len() as int)
            &&& forall|i: int| 0 <= i < r.len() ==> #[trigger] r[i].score.0 >= min
        }),
{
    let min = if k - 1 < s.len() {
        s[k - 1].score.0 as int
    } else {
        i16::MIN as int
    };
    let n = vstd::math::min(k, s.len() as int);
    assert forall|i: int| 0 <= i < n implies s[i].score.0 >= min by {
        if k - 1 < s.len() {
            assert(s[i].score.0 >= s[k - 1].score.0);
        } else {
            assert(s[i].score.0 >= i16::MIN);
        }
    }
    lemma_take_while_ge(s, min, n);
}


// ---------------------------------------------------------------------------
// Decoded moves name real squares.
// ---------------------------------------------------------------------------

/// Every move names squares below 64.
pub open spec fn moves_wf(s: Seq<ScoredMove>) -> bool {
    forall|i: int| 0 <= i < s.len() ==> (#[trigger] s[i].uci.from < 64) && s[i].uci.to < 64
}

proof fn lemma_decode_rec_moves_wf(b: Seq<u8>, i: int)
    requires
        spec_decode_rec(b, i) is Some,
    ensures
        moves_wf(spec_decode_rec(b, i).unwrap().0),
    decreases b.len() - i,
{
    if 0 <= i && i + 4 <= b.len() {
        lemma_decode_rec_moves_wf(b, i + 4);
        let dst = b[i];
        let src = b[i + 1];
        let score = le_i16(b[i + 2], b[i + 3]);
        if !(src == 0 && dst == 0) {
            let m = spec_decode_move(dst, src, score).unwrap();
            assert(m.uci.from < 64 && m.uci.to < 64);
            let rest = spec_decode_rec(b, i + 4).unwrap().0;
            let whole = spec_decode_rec(b, i).unwrap().0;
            assert(whole == seq![m] + rest);
            assert forall|j: int| 0 <= j < whole.len() implies (#[trigger] whole[j].uci.from < 64)
                && whole[j].uci.to < 64 by {
                if j > 0 {
                    assert(whole[j] == rest[j - 1]);
                }
            }
        }
    }
}

/// Whatever a blob decodes to names real squares.
pub proof fn lemma_decode_moves_wf(b: Seq<u8>, order: NaturalOrder)
    requires
        spec_decode(b, order) is Some,
    ensures
        moves_wf(spec_decode(b, order).unwrap().0),
{
    lemma_decode_rec_moves_wf(b, 0);
    let ms = spec_decode_rec(b, 0).unwrap().0;
    let r = spec_decode(b, order).unwrap().0;
    if order is Mirror {
        assert forall|j: int| 0 <= j < r.len() implies (#[trigger] r[j].uci.from < 64)
            && r[j].uci.to < 64 by {
            assert(r[j] == spec_mirror_move(ms[j]));
            let f = ms[j].uci.from;
            let t = ms[j].uci.to;
            assert(f < 64 ==> (f ^ 56) < 64) by (bit_vector);
            assert(t < 64 ==> (t ^ 56) < 64) by (bit_vector);
        }
    }
}

/// Two lists with the same moves as a multiset name real squares together.
pub proof fn lemma_moves_wf_multiset(a: Seq<ScoredMove>, c: Seq<ScoredMove>)
    requires
        a.to_multiset() == c.to_multiset(),
        moves_wf(a),
    ensures
        moves_wf(c),
{
    broadcast use vstd::seq_lib::to_multiset_contains;

    assert forall|i: int| 0 <= i < c.len() implies (#[trigger] c[i].uci.from < 64) && c[i].uci.to
        < 64 by {
        assert(c.contains(c[i]));
        assert(c.to_multiset().count(c[i]) > 0);
        assert(a.contains(c[i]));
        let j = choose|j: int| 0 <= j < a.len() && a[j] == c[i];
        assert(a[j].uci.from < 64);
    }
}

/// A prefix of a list that names real squares does too.
pub proof fn lemma_moves_wf_take(a: Seq<ScoredMove>, n: int)
    requires
        moves_wf(a),
        0 <= n <= a.len(),
    ensures
        moves_wf(a.take(n)),
{
    assert forall|i: int| 0 <= i < n implies (#[trigger] a.take(n)[i].uci.from < 64) && a.take(
        n,
    )[i].uci.to < 64 by {
        assert(a.take(n)[i] == a[i]);
    }
}


/// A move in UCI text: file letter and rank digit of each square, then the
/// promotion letter if any.
pub open spec fn spec_uci_ascii(m: UciMove) -> Seq<u8> {
    seq![
        (0x61 + m.from % 8) as u8,
        (0x31 + m.from / 8) as u8,
        (0x61 + m.to % 8) as u8,
        (0x31 + m.to / 8) as u8,
    ] + match m.promotion {
        Some(PromotionRole::Queen) => seq![0x71u8],
        Some(PromotionRole::Rook) => seq![0x72u8],
        Some(PromotionRole::Bishop) => seq![0x62u8],
        Some(PromotionRole::Knight) => seq![0x6eu8],
        None => Seq::empty(),
    }
}

/// Renders a move in UCI notation, as ASCII bytes.
pub fn uci_ascii(m: &UciMove) -> (r: Vec<u8>)
    requires
        m.from < 64,
        m.to < 64,
    ensures
        r@ == spec_uci_ascii(*m),
{
    let mut out: Vec<u8> = Vec::new();
    out.push(0x61 + m.from % 8);
    out.push(0x31 + m.from / 8);
    out.push(0x61 + m.to % 8);
    out.push(0x31 + m.to / 8);
    match m.promotion {
        Some(PromotionRole::Queen) => out.push(0x71),
        Some(PromotionRole::Rook) => out.push(0x72),
        Some(PromotionRole::Bishop) => out.push(0x62),
        Some(PromotionRole::Knight) => out.push(0x6e),
        None => {},
    }
    proof {
        assert(out@ =~= spec_uci_ascii(*m));
    }
    out
}


/// Every record of a decoded blob contributes its own move at its place in
/// record order: the moves decoded from offset `i` on are a suffix of the
/// blob's moves, and a non-sentinel record at `i` heads that suffix with
/// exactly the decode of its own four bytes — the promotion rules included,
/// in both directions and for all four pieces, as `spec_decode_move`
/// states them. The orientation's mirroring applies to the whole list
/// afterwards, as `spec_decode` shows.
pub proof fn lemma_decode_per_record(b: Seq<u8>, i: int)
    requires
        spec_decode_rec(b, 0) is Some,
        0 <= i,
        i % 4 == 0,
        i + 4 <= b.len(),
    ensures
        spec_decode_rec(b, i) is Some,
        ({
            let whole = spec_decode_rec(b, 0).unwrap().0;
            let suffix = spec_decode_rec(b, i).unwrap().0;
            &&& suffix.len() <= whole.len()
            &&& whole.skip(whole.len() - suffix.len()) == suffix
            &&& (!(b[i] == 0 && b[i + 1] == 0) ==> suffix.len() >= 1 && suffix[0]
                == spec_decode_move(b[i], b[i + 1], le_i16(b[i + 2], b[i + 3])).unwrap())
        }),
    decreases i,
{
    let whole = spec_decode_rec(b, 0).unwrap().0;
    if i == 0 {
        assert(whole.skip(0) =~= whole);
    } else {
        lemma_decode_per_record(b, i - 4);
        let prev = spec_decode_rec(b, i - 4).unwrap().0;
        let suffix = spec_decode_rec(b, i).unwrap().0;
        if b[i - 4] == 0 && b[i - 3] == 0 {
            assert(prev == suffix);
        } else {
            let m = spec_decode_move(b[i - 4], b[i - 3], le_i16(b[i - 2], b[i - 1])).unwrap();
            assert(prev == seq![m] + suffix);
            assert(prev.skip(1) =~= suffix);
        }
        assert(whole.skip(whole.len() - suffix.len()) =~= whole.skip(
            whole.len() - prev.len(),
        ).skip(prev.len() - suffix.len()));
    }
    let suffix = spec_decode_rec(b, i).unwrap().0;
    if !(b[i] == 0 && b[i + 1] == 0) {
        let m = spec_decode_move(b[i], b[i + 1], le_i16(b[i + 2], b[i + 3])).unwrap();
        assert(suffix == seq![m] + spec_decode_rec(b, i + 4).unwrap().0);
        assert(suffix[0] == m);
    }
}

} // verus!
