use vstd::prelude::*;

use crate::nibbles::Nibbles;
use crate::position::{PosView, Position};

verus! {

// ---------------------------------------------------------------------------
// Byte-lexicographic order, the order of the key space.
// ---------------------------------------------------------------------------

/// Strict lexicographic order on byte sequences: a proper prefix comes first.
pub open spec fn lex_lt(a: Seq<u8>, b: Seq<u8>) -> bool
    decreases a.len(),
{
    if b.len() == 0 {
        false
    } else if a.len() == 0 {
        true
    } else if a[0] != b[0] {
        a[0] < b[0]
    } else {
        lex_lt(a.drop_first(), b.drop_first())
    }
}

pub proof fn lemma_lex_asymmetric(a: Seq<u8>, b: Seq<u8>)
    ensures
        lex_lt(a, b) ==> !lex_lt(b, a),
    decreases a.len(),
{
    if a.len() > 0 && b.len() > 0 && a[0] == b[0] {
        lemma_lex_asymmetric(a.drop_first(), b.drop_first());
    }
}

/// Two sequences that neither precede each other are equal.
pub proof fn lemma_lex_connex(a: Seq<u8>, b: Seq<u8>)
    ensures
        lex_lt(a, b) || lex_lt(b, a) || a == b,
    decreases a.len(),
{
    if a.len() == 0 && b.len() == 0 {
        assert(a =~= b);
    } else if a.len() > 0 && b.len() > 0 && a[0] == b[0] {
        lemma_lex_connex(a.drop_first(), b.drop_first());
        if !lex_lt(a, b) && !lex_lt(b, a) {
            assert(a.drop_first() == b.drop_first());
            assert(a.len() == b.len());
            assert forall|i: int| 0 <= i < a.len() implies a[i] == b[i] by {
                if i > 0 {
                    assert(a[i] == a.drop_first()[i - 1]);
                    assert(b[i] == b.drop_first()[i - 1]);
                }
            }
            assert(a =~= b);
        }
    }
}

/// Compares two byte strings in lexicographic order.
pub fn lex_lt_bytes(a: &[u8], b: &[u8]) -> (r: bool)
    ensures
        r == lex_lt(a@, b@),
{
    let a_len = a.len();
    let b_len = b.len();
    let n = if a_len < b_len {
        a_len
    } else {
        b_len
    };
    let mut i: usize = 0;
    proof {
        assert(a@.skip(0) =~= a@);
        assert(b@.skip(0) =~= b@);
    }
    while i < n
        invariant
            i <= n,
            n <= a@.len(),
            n <= b@.len(),
            n == if a@.len() < b@.len() {
                a@.len() as int
            } else {
                b@.len() as int
            },
            lex_lt(a@, b@) == lex_lt(a@.skip(i as int), b@.skip(i as int)),
            lex_lt(b@, a@) == lex_lt(b@.skip(i as int), a@.skip(i as int)),
        decreases n - i,
    {
        let x = a[i];
        let y = b[i];
        proof {
            assert(a@.skip(i as int)[0] == a@[i as int]);
            assert(b@.skip(i as int)[0] == b@[i as int]);
            assert(a@.skip(i as int).drop_first() =~= a@.skip(i as int + 1));
            assert(b@.skip(i as int).drop_first() =~= b@.skip(i as int + 1));
        }
        if x != y {
            return x < y;
        }
        i += 1;
    }
    proof {
        if a@.len() < b@.len() {
            assert(a@.skip(i as int).len() == 0);
            assert(b@.skip(i as int).len() > 0);
        } else {
            assert(b@.skip(i as int).len() == 0);
        }
    }
    a_len < b_len
}

// ---------------------------------------------------------------------------
// The nibble alphabet of the board section.
// ---------------------------------------------------------------------------

/// The nibble of a piece code: black pieces P N B R Q K take 3 4 5 6 7 9,
/// white pieces take a b c d e f. Nibble 8 is the long-empty-run prefix.
pub open spec fn piece_nibble(c: u8) -> u8 {
    if 1 <= c <= 6 {
        (c + 9) as u8  // white: 0xa ..= 0xf
    } else if 7 <= c <= 11 {
        (c - 4) as u8  // black pawn ..= queen: 3 ..= 7
    } else {
        9u8  // black king
    }
}

/// The run-length encoding of `e` empty squares: runs of 1 to 3 take one
/// nibble 0 to 2, runs of 4 to 8 take the prefix nibble 8 and the length
/// less 4; an empty run emits nothing.
pub open spec fn empty_syms(e: int) -> Seq<u8> {
    if e == 0 {
        Seq::empty()
    } else if 1 <= e <= 3 {
        seq![(e - 1) as u8]
    } else if 4 <= e <= 8 {
        seq![8u8, (e - 4) as u8]
    } else {
        Seq::empty()
    }
}

/// The nibbles of one rank from file `f` on, with `e` empty squares seen
/// and not yet written: pending empties flush before each piece and at the
/// end of the rank.
pub open spec fn rank_syms(board: Seq<u8>, r: int, f: int, e: int) -> Seq<u8>
    decreases 8 - f,
{
    if f < 0 || f >= 8 {
        empty_syms(e)
    } else if board[8 * r + f] == 0 {
        rank_syms(board, r, f + 1, e + 1)
    } else {
        empty_syms(e) + seq![piece_nibble(board[8 * r + f])] + rank_syms(board, r, f + 1, 0)
    }
}

/// The nibbles of ranks `r` down to 1 (rank index `r - 1` down to 0).
pub open spec fn board_syms_down(board: Seq<u8>, r: int) -> Seq<u8>
    decreases r,
{
    if r <= 0 {
        Seq::empty()
    } else {
        rank_syms(board, r - 1, 0, 0) + board_syms_down(board, r - 1)
    }
}

/// The board section: ranks 8 down to 1, each run-length encoded.
pub open spec fn board_syms(board: Seq<u8>) -> Seq<u8> {
    board_syms_down(board, 8)
}

/// Writes the run-length encoding of `empty` empty squares.
pub fn push_empty(nibbles: &mut Nibbles, empty: u8)
    requires
        old(nibbles).wf(),
        empty <= 8,
    ensures
        final(nibbles).wf(),
        final(nibbles)@ == old(nibbles)@ + empty_syms(empty as int),
{
    match empty {
        1 => nibbles.push_nibble(0x0),
        2 => nibbles.push_nibble(0x1),
        3 => nibbles.push_nibble(0x2),
        4 => {
            proof {
                assert(0x80u8 >> 4 == 8 && 0x80u8 & 0xf == 0) by (bit_vector);
            }
            nibbles.push_byte(0x80);
        },
        5 => {
            proof {
                assert(0x81u8 >> 4 == 8 && 0x81u8 & 0xf == 1) by (bit_vector);
            }
            nibbles.push_byte(0x81);
        },
        6 => {
            proof {
                assert(0x82u8 >> 4 == 8 && 0x82u8 & 0xf == 2) by (bit_vector);
            }
            nibbles.push_byte(0x82);
        },
        7 => {
            proof {
                assert(0x83u8 >> 4 == 8 && 0x83u8 & 0xf == 3) by (bit_vector);
            }
            nibbles.push_byte(0x83);
        },
        8 => {
            proof {
                assert(0x84u8 >> 4 == 8 && 0x84u8 & 0xf == 4) by (bit_vector);
            }
            nibbles.push_byte(0x84);
        },
        _ => {},
    }
    proof {
        assert(final(nibbles)@ =~= old(nibbles)@ + empty_syms(empty as int));
    }
}

/// Writes the board section of the key.
pub(crate) fn push_board(nibbles: &mut Nibbles, pos: &Position)
    requires
        old(nibbles).wf(),
        pos@.wf(),
    ensures
        final(nibbles).wf(),
        final(nibbles)@ == old(nibbles)@ + board_syms(pos@.board),
{
    let ghost base = old(nibbles)@;
    let ghost b = pos@.board;
    let mut rank: usize = 8;
    while rank > 0
        invariant
            nibbles.wf(),
            pos@.wf(),
            b == pos@.board,
            rank <= 8,
            base + board_syms(b) =~= nibbles@ + board_syms_down(b, rank as int),
        decreases rank,
    {
        rank -= 1;
        let ghost rank_base = nibbles@;
        let mut empty: u8 = 0;
        let mut file: usize = 0;
        while file < 8
            invariant
                nibbles.wf(),
                pos@.wf(),
                b == pos@.board,
                rank < 8,
                file <= 8,
                empty <= file,
                rank_base + rank_syms(b, rank as int, 0, 0) =~= nibbles@ + rank_syms(
                    b,
                    rank as int,
                    file as int,
                    empty as int,
                ),
            decreases 8 - file,
        {
            let code = pos.board[8 * rank + file];
            if code == 0 {
                empty += 1;
            } else {
                push_empty(nibbles, empty);
                empty = 0;
                let nib: u8 = if code <= 6 {
                    code + 9
                } else if code <= 11 {
                    code - 4
                } else {
                    9
                };
                nibbles.push_nibble(nib);
            }
            file += 1;
        }
        push_empty(nibbles, empty);
        proof {
            assert(rank_syms(b, rank as int, 8, empty as int) == empty_syms(empty as int));
            assert(board_syms_down(b, rank as int + 1) == rank_syms(b, rank as int, 0, 0)
                + board_syms_down(b, rank as int));
            assert(base + board_syms(b) =~= nibbles@ + board_syms_down(b, rank as int));
        }
    }
}

// ---------------------------------------------------------------------------
// The castling section.
// ---------------------------------------------------------------------------

pub open spec fn backrank(black: bool) -> int {
    if black {
        7int
    } else {
        0int
    }
}

pub open spec fn king_code(black: bool) -> u8 {
    if black {
        12u8
    } else {
        6u8
    }
}

pub open spec fn rook_code(black: bool) -> u8 {
    if black {
        10u8
    } else {
        4u8
    }
}

/// How many squares from `i` on hold code `c`.
pub open spec fn count_from(board: Seq<u8>, c: u8, i: int) -> int
    decreases 64 - i,
{
    if i < 0 || i >= 64 {
        0
    } else {
        (if board[i] == c {
            1int
        } else {
            0int
        }) + count_from(board, c, i + 1)
    }
}

/// The lowest square from `i` on holding code `c`, or 64.
pub open spec fn find_from(board: Seq<u8>, c: u8, i: int) -> int
    decreases 64 - i,
{
    if i < 0 || i >= 64 {
        64
    } else if board[i] == c {
        i
    } else {
        find_from(board, c, i + 1)
    }
}

/// The file of the color's king, if the board holds exactly one king of
/// that color and it stands on the color's back rank.
pub open spec fn king_backrank_file(v: PosView, black: bool) -> Option<int> {
    let c = king_code(black);
    if count_from(v.board, c, 0) == 1 && find_from(v.board, c, 0) / 8 == backrank(black) {
        Some(find_from(v.board, c, 0) % 8)
    } else {
        None
    }
}

/// The lowest file from `f` up with a rook of the color on its back rank.
pub open spec fn min_rook_from(v: PosView, black: bool, f: int) -> Option<int>
    decreases 8 - f,
{
    if f < 0 || f >= 8 {
        None
    } else if v.board[8 * backrank(black) + f] == rook_code(black) {
        Some(f)
    } else {
        min_rook_from(v, black, f + 1)
    }
}

/// The highest file from `f` down with a rook of the color on its back rank.
pub open spec fn max_rook_from(v: PosView, black: bool, f: int) -> Option<int>
    decreases f + 1,
{
    if f < 0 || f > 7 {
        None
    } else if v.board[8 * backrank(black) + f] == rook_code(black) {
        Some(f)
    } else {
        max_rook_from(v, black, f - 1)
    }
}

/// The symbols of one castling right on file `f`: the queen-side nibble
/// when the rook is the leftmost back-rank rook and the king stands to its
/// right, the king-side nibble when it is the rightmost and the king stands
/// to its left, and the explicit file otherwise (black one symbol `1 + f`;
/// white a prefix `e` and then `1 + f`, or in the legacy alphabet the file
/// letter `a + f`).
pub open spec fn castle_syms_at(v: PosView, black: bool, legacy: bool, f: int) -> Seq<u8> {
    let kf = king_backrank_file(v, black);
    if min_rook_from(v, black, 0) == Some(f) && (kf is Some && f < kf.unwrap()) {
        seq![
            if black {
                0xdu8
            } else {
                0xbu8
            },
        ]
    } else if max_rook_from(v, black, 7) == Some(f) && (kf is Some && kf.unwrap() < f) {
        seq![
            if black {
                0xcu8
            } else {
                0xau8
            },
        ]
    } else if black {
        seq![(1 + f) as u8]
    } else if legacy {
        seq![0xeu8, (0xa + f) as u8]
    } else {
        seq![0xeu8, (1 + f) as u8]
    }
}

/// The castling symbols of one color, files `f` down to a.
pub open spec fn castle_color_down(v: PosView, black: bool, legacy: bool, f: int) -> Seq<u8>
    decreases f + 1,
{
    if f < 0 {
        Seq::empty()
    } else {
        (if v.castling[8 * backrank(black) + f] {
            castle_syms_at(v, black, legacy, f)
        } else {
            Seq::empty()
        }) + castle_color_down(v, black, legacy, f - 1)
    }
}

/// The castling symbols, white first.
pub open spec fn castle_syms(v: PosView, legacy: bool) -> Seq<u8> {
    castle_color_down(v, false, legacy, 7) + castle_color_down(v, true, legacy, 7)
}

/// The castling section: a single 0 symbol when neither side has a right.
pub open spec fn castling_section_syms(v: PosView, legacy: bool) -> Seq<u8> {
    if castle_syms(v, legacy).len() == 0 {
        seq![0u8]
    } else {
        castle_syms(v, legacy)
    }
}

/// Every castling symbol is under 18, and under 16 outside the legacy
/// alphabet.
pub proof fn lemma_castle_color_bounds(v: PosView, black: bool, legacy: bool, f: int)
    requires
        f <= 7,
    ensures
        forall|k: int|
            0 <= k < castle_color_down(v, black, legacy, f).len() ==> #[trigger] castle_color_down(
                v,
                black,
                legacy,
                f,
            )[k] < 18 && (!legacy ==> castle_color_down(v, black, legacy, f)[k] < 16),
    decreases f + 1,
{
    if f >= 0 {
        lemma_castle_color_bounds(v, black, legacy, f - 1);
        let whole = castle_color_down(v, black, legacy, f);
        let head = if v.castling[8 * backrank(black) + f] {
            castle_syms_at(v, black, legacy, f)
        } else {
            Seq::<u8>::empty()
        };
        let tail = castle_color_down(v, black, legacy, f - 1);
        assert(whole == head + tail);
        assert forall|k: int| 0 <= k < whole.len() implies whole[k] < 18 && (!legacy ==> whole[k]
            < 16) by {
            if k < head.len() {
                assert(whole[k] == head[k]);
                assert(head[k] < 18 && (!legacy ==> head[k] < 16));
            } else {
                assert(whole[k] == tail[k - head.len()]);
            }
        }
    }
}

/// Counts and locates the squares holding code `c`: the count and the
/// lowest such square (64 when there is none).
fn scan_code(pos: &Position, c: u8) -> (r: (u8, u8))
    requires
        pos@.wf(),
    ensures
        r.0 == count_from(pos@.board, c, 0),
        r.1 == find_from(pos@.board, c, 0),
{
    let ghost b = pos@.board;
    let mut count: u8 = 0;
    let mut first: u8 = 64;
    let mut i: usize = 0;
    while i < 64
        invariant
            pos@.wf(),
            b == pos@.board,
            i <= 64,
            count <= i,
            count == 0 ==> first == 64,
            count_from(b, c, 0) == count + count_from(b, c, i as int),
            find_from(b, c, 0) == if count > 0 {
                first as int
            } else {
                find_from(b, c, i as int)
            },
        decreases 64 - i,
    {
        if pos.board[i] == c {
            if count == 0 {
                first = i as u8;
            }
            count += 1;
        }
        i += 1;
    }
    (count, first)
}

/// The file of the color's unique back-rank king, if any.
fn king_file(pos: &Position, black: bool) -> (r: Option<u8>)
    requires
        pos@.wf(),
    ensures
        king_backrank_file(pos@, black) == match r {
            Some(f) => Some(f as int),
            None => None::<int>,
        },
{
    let code: u8 = if black {
        12
    } else {
        6
    };
    let br: u8 = if black {
        7
    } else {
        0
    };
    let (count, first) = scan_code(pos, code);
    if count == 1 && first / 8 == br {
        Some(first % 8)
    } else {
        None
    }
}

/// The lowest back-rank file with a rook of the color, if any.
fn min_rook_file(pos: &Position, black: bool) -> (r: Option<u8>)
    requires
        pos@.wf(),
    ensures
        min_rook_from(pos@, black, 0) == match r {
            Some(f) => Some(f as int),
            None => None::<int>,
        },
{
    let rc: u8 = if black {
        10
    } else {
        4
    };
    let base: usize = if black {
        56
    } else {
        0
    };
    let mut f: usize = 0;
    while f < 8
        invariant
            pos@.wf(),
            f <= 8,
            base == 8 * backrank(black),
            rc == rook_code(black),
            min_rook_from(pos@, black, 0) == min_rook_from(pos@, black, f as int),
        decreases 8 - f,
    {
        if pos.board[base + f] == rc {
            return Some(f as u8);
        }
        f += 1;
    }
    None
}

/// The highest back-rank file with a rook of the color, if any.
fn max_rook_file(pos: &Position, black: bool) -> (r: Option<u8>)
    requires
        pos@.wf(),
    ensures
        max_rook_from(pos@, black, 7) == match r {
            Some(f) => Some(f as int),
            None => None::<int>,
        },
{
    let rc: u8 = if black {
        10
    } else {
        4
    };
    let base: usize = if black {
        56
    } else {
        0
    };
    let mut f: usize = 8;
    while f > 0
        invariant
            pos@.wf(),
            f <= 8,
            base == 8 * backrank(black),
            rc == rook_code(black),
            max_rook_from(pos@, black, 7) == max_rook_from(pos@, black, f as int - 1),
        decreases f,
    {
        f -= 1;
        if pos.board[base + f] == rc {
            return Some(f as u8);
        }
    }
    None
}

/// Writes the castling symbols of one color, highest file first.
fn push_castle_color(out: &mut Vec<u8>, pos: &Position, black: bool, legacy: bool)
    requires
        pos@.wf(),
    ensures
        final(out)@ == old(out)@ + castle_color_down(pos@, black, legacy, 7),
{
    let ghost base_syms = old(out)@;
    let kf = king_file(pos, black);
    let minr = min_rook_file(pos, black);
    let maxr = max_rook_file(pos, black);
    let base: usize = if black {
        56
    } else {
        0
    };
    let mut f: usize = 8;
    while f > 0
        invariant
            pos@.wf(),
            f <= 8,
            base == 8 * backrank(black),
            king_backrank_file(pos@, black) == match kf {
                Some(x) => Some(x as int),
                None => None::<int>,
            },
            min_rook_from(pos@, black, 0) == match minr {
                Some(x) => Some(x as int),
                None => None::<int>,
            },
            max_rook_from(pos@, black, 7) == match maxr {
                Some(x) => Some(x as int),
                None => None::<int>,
            },
            base_syms + castle_color_down(pos@, black, legacy, 7) =~= out@ + castle_color_down(
                pos@,
                black,
                legacy,
                f as int - 1,
            ),
        decreases f,
    {
        f -= 1;
        if pos.castling[base + f] {
            let is_min = match minr {
                Some(x) => x as usize == f,
                None => false,
            };
            let is_max = match maxr {
                Some(x) => x as usize == f,
                None => false,
            };
            let king_right = match kf {
                Some(k) => f < k as usize,
                None => false,
            };
            let king_left = match kf {
                Some(k) => (k as usize) < f,
                None => false,
            };
            if is_min && king_right {
                out.push(if black {
                    0xd
                } else {
                    0xb
                });
            } else if is_max && king_left {
                out.push(if black {
                    0xc
                } else {
                    0xa
                });
            } else if black {
                out.push(1 + f as u8);
            } else {
                out.push(0xe);
                if legacy {
                    out.push(0xa + f as u8);
                } else {
                    out.push(1 + f as u8);
                }
            }
        }
        proof {
            assert(base_syms + castle_color_down(pos@, black, legacy, 7) =~= out@
                + castle_color_down(pos@, black, legacy, f as int - 1));
        }
    }
}

/// The castling symbols of the whole position, white first.
pub fn castling_syms_vec(pos: &Position, legacy: bool) -> (r: Vec<u8>)
    requires
        pos@.wf(),
    ensures
        r@ == castle_syms(pos@, legacy),
{
    let mut out: Vec<u8> = Vec::new();
    push_castle_color(&mut out, pos, false, legacy);
    push_castle_color(&mut out, pos, true, legacy);
    proof {
        assert(out@ =~= castle_syms(pos@, legacy));
    }
    out
}

// ---------------------------------------------------------------------------
// The whole key.
// ---------------------------------------------------------------------------

/// The side-to-move nibble.
pub open spec fn turn_sym(v: PosView) -> u8 {
    if v.turn_black {
        1u8
    } else {
        0u8
    }
}

/// The en-passant nibbles: `1 + file` and `1 + rank`, or nothing.
pub open spec fn ep_syms(v: PosView) -> Seq<u8> {
    match v.ep_square {
        Some(e) => seq![(1 + e % 8) as u8, (1 + e / 8) as u8],
        None => Seq::empty(),
    }
}

/// The nibble stream of the key: the prefix byte 'h' as two nibbles, the
/// board, the side to move, the castling section, the delimiter 9, and the
/// en-passant square if any.
pub open spec fn spec_cdb_fen(v: PosView) -> Seq<u8> {
    seq![6u8, 8u8] + board_syms(v.board) + seq![turn_sym(v)] + castling_section_syms(v, false)
        + seq![9u8] + ep_syms(v)
}

/// The key as bytes: the nibble stream packed two to a byte.
pub open spec fn spec_cdb_key_bytes(v: PosView) -> Seq<u8> {
    crate::nibbles::pack_nibbles(spec_cdb_fen(v))
}

/// Writes the key of the position as given, without canonicalization.
pub fn push_cdb_fen(nibbles: &mut Nibbles, pos: &Position)
    requires
        old(nibbles).wf(),
        pos@.wf(),
    ensures
        final(nibbles).wf(),
        final(nibbles)@ == old(nibbles)@ + spec_cdb_fen(pos@),
{
    let ghost v = pos@;
    // Prefix
    proof {
        assert(0x68u8 >> 4 == 6 && 0x68u8 & 0xf == 8) by (bit_vector);
    }
    nibbles.push_byte(0x68);

    // Board
    push_board(nibbles, pos);

    // Turn
    nibbles.push_nibble(if pos.turn_black {
        1
    } else {
        0
    });

    // Castling rights
    let syms = castling_syms_vec(pos, false);
    proof {
        lemma_castle_color_bounds(v, false, false, 7);
        lemma_castle_color_bounds(v, true, false, 7);
    }
    if syms.len() == 0 {
        nibbles.push_nibble(0);
    } else {
        let ghost mid = nibbles@;
        let mut k: usize = 0;
        while k < syms.len()
            invariant
                nibbles.wf(),
                k <= syms@.len(),
                forall|j: int| 0 <= j < syms@.len() ==> syms@[j] < 16,
                nibbles@ =~= mid + syms@.take(k as int),
            decreases syms@.len() - k,
        {
            nibbles.push_nibble(syms[k]);
            proof {
                assert(syms@.take(k as int + 1) =~= syms@.take(k as int) + seq![syms@[k as int]]);
            }
            k += 1;
        }
        proof {
            assert(syms@.take(syms@.len() as int) =~= syms@);
        }
    }

    // Delimiter
    nibbles.push_nibble(9);

    // Ep square
    match pos.ep_square {
        Some(e) => {
            nibbles.push_nibble(1 + e % 8);
            nibbles.push_nibble(1 + e / 8);
        },
        None => {},
    }
    proof {
        assert(final(nibbles)@ =~= old(nibbles)@ + spec_cdb_fen(v));
    }
}

/// Whether the canonical key keeps the position's own orientation (`Same`)
/// or that of its color-mirror (`Mirror`).
#[derive(Debug, Copy, Clone, PartialEq, Eq, Structural)]
pub enum NaturalOrder {
    Same,
    Mirror,
}

/// The canonical choice: the mirrored encoding only when it is strictly
/// smaller; a tie keeps the position's own orientation.
pub open spec fn spec_natural_order(v: PosView) -> NaturalOrder {
    if lex_lt(spec_cdb_key_bytes(crate::position::spec_mirror(v)), spec_cdb_key_bytes(v)) {
        NaturalOrder::Mirror
    } else {
        NaturalOrder::Same
    }
}

/// The canonical key bytes: the lexicographically smaller of the two
/// encodings.
pub open spec fn spec_canonical_key(v: PosView) -> Seq<u8> {
    if spec_natural_order(v) == NaturalOrder::Mirror {
        spec_cdb_key_bytes(crate::position::spec_mirror(v))
    } else {
        spec_cdb_key_bytes(v)
    }
}

/// Encodes the position and its color-mirror and returns the
/// lexicographically smaller key, with the orientation that produced it.
pub fn cdb_fen(pos: &Position) -> (r: (Nibbles, NaturalOrder))
    requires
        pos@.wf(),
    ensures
        r.0.wf(),
        r.0.byte_view() == spec_canonical_key(pos@),
        r.1 == spec_natural_order(pos@),
        r.1 == NaturalOrder::Same ==> r.0@ == spec_cdb_fen(pos@),
        r.1 == NaturalOrder::Mirror ==> r.0@ == spec_cdb_fen(
            crate::position::spec_mirror(pos@),
        ),
{
    let mut nibbles = Nibbles::new();
    push_cdb_fen(&mut nibbles, pos);

    let mirrored = pos.mirror();
    let mut nibbles_mirrored = Nibbles::new();
    push_cdb_fen(&mut nibbles_mirrored, &mirrored);

    proof {
        nibbles.lemma_byte_view_is_pack();
        nibbles_mirrored.lemma_byte_view_is_pack();
    }
    if lex_lt_bytes(nibbles_mirrored.as_bytes(), nibbles.as_bytes()) {
        (nibbles_mirrored, NaturalOrder::Mirror)
    } else {
        (nibbles, NaturalOrder::Same)
    }
}

/// The canonical key is one of the two encodings, the smaller one where
/// they differ; `Same` means the position's own encoding was kept.
pub proof fn lemma_canonical_key_choice(v: PosView)
    requires
        v.wf(),
    ensures
        spec_canonical_key(v) == spec_cdb_key_bytes(v) || spec_canonical_key(v)
            == spec_cdb_key_bytes(crate::position::spec_mirror(v)),
        spec_cdb_key_bytes(v) != spec_cdb_key_bytes(crate::position::spec_mirror(v)) ==> ((
        spec_canonical_key(v) == spec_cdb_key_bytes(v)) != (spec_canonical_key(v)
            == spec_cdb_key_bytes(crate::position::spec_mirror(v)))),
        spec_natural_order(v) == NaturalOrder::Mirror ==> lex_lt(
            spec_canonical_key(v),
            spec_cdb_key_bytes(v),
        ),
        spec_natural_order(v) == NaturalOrder::Same && spec_cdb_key_bytes(v)
            != spec_cdb_key_bytes(crate::position::spec_mirror(v)) ==> lex_lt(
            spec_canonical_key(v),
            spec_cdb_key_bytes(crate::position::spec_mirror(v)),
        ),
{
    let a = spec_cdb_key_bytes(v);
    let b = spec_cdb_key_bytes(crate::position::spec_mirror(v));
    lemma_lex_connex(a, b);
    lemma_lex_asymmetric(b, a);
}

/// A position and its color-mirror share the canonical key.
pub proof fn lemma_canonical_mirror(v: PosView)
    requires
        v.wf(),
    ensures
        spec_canonical_key(crate::position::spec_mirror(v)) == spec_canonical_key(v),
{
    let m = crate::position::spec_mirror(v);
    crate::position::lemma_mirror_involution(v);
    let a = spec_cdb_key_bytes(v);
    let b = spec_cdb_key_bytes(m);
    lemma_lex_connex(a, b);
    lemma_lex_asymmetric(a, b);
    lemma_lex_asymmetric(b, a);
}

/// A rank takes at most 26 nibbles.
proof fn lemma_rank_syms_len(board: Seq<u8>, r: int, f: int, e: int)
    requires
        0 <= e,
        f <= 8,
    ensures
        rank_syms(board, r, f, e).len() <= 2 + 3 * (8 - f),
    decreases 8 - f,
{
    if 0 <= f < 8 {
        lemma_rank_syms_len(board, r, f + 1, e + 1);
        lemma_rank_syms_len(board, r, f + 1, 0);
    }
}

/// The board section takes at most 208 nibbles.
pub proof fn lemma_board_syms_len(board: Seq<u8>, r: int)
    requires
        0 <= r,
    ensures
        board_syms_down(board, r).len() <= 26 * r,
    decreases r,
{
    if r > 0 {
        lemma_rank_syms_len(board, r - 1, 0, 0);
        lemma_board_syms_len(board, r - 1);
    }
}

} // verus!
