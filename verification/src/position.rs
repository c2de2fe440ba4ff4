use vstd::prelude::*;

verus! {

// Piece codes held in a board square: 0 is an empty square, 1..=6 are the
// white pawn, knight, bishop, rook, queen and king, 7..=12 the same black
// pieces.
pub const EMPTY: u8 = 0;
pub const WHITE_PAWN: u8 = 1;
pub const WHITE_KNIGHT: u8 = 2;
pub const WHITE_BISHOP: u8 = 3;
pub const WHITE_ROOK: u8 = 4;
pub const WHITE_QUEEN: u8 = 5;
pub const WHITE_KING: u8 = 6;
pub const BLACK_PAWN: u8 = 7;
pub const BLACK_KNIGHT: u8 = 8;
pub const BLACK_BISHOP: u8 = 9;
pub const BLACK_ROOK: u8 = 10;
pub const BLACK_QUEEN: u8 = 11;
pub const BLACK_KING: u8 = 12;

/// The mathematical model of a position: what the key encoding reads.
/// Squares are indexed `8 * rank + file`, with file 0 = a and rank 0 = 1.
#[verifier::ext_equal]
pub ghost struct PosView {
    pub board: Seq<u8>,
    pub turn_black: bool,
    pub castling: Seq<bool>,
    pub ep_square: Option<u8>,
}

impl PosView {
    pub open spec fn wf(self) -> bool {
        &&& self.board.len() == 64
        &&& forall|i: int| 0 <= i < 64 ==> self.board[i] <= 12
        &&& self.castling.len() == 64
        &&& self.ep_square is Some ==> self.ep_square.unwrap() < 64
    }
}

/// A chess position as far as the binary key format records it: piece
/// placement, side to move, castling rights, en-passant square. Move
/// counters do not enter the key and are not held here.
#[derive(Clone, Debug)]
pub struct Position {
    pub board: Vec<u8>,
    pub turn_black: bool,
    pub castling: Vec<bool>,
    pub ep_square: Option<u8>,
}

impl View for Position {
    type V = PosView;

    open spec fn view(&self) -> PosView {
        PosView {
            board: self.board@,
            turn_black: self.turn_black,
            castling: self.castling@,
            ep_square: self.ep_square,
        }
    }
}

/// The color-swapped counterpart of a piece code.
pub open spec fn mirror_code(c: u8) -> u8 {
    if c == 0 {
        0u8
    } else if c <= 6 {
        (c + 6) as u8
    } else {
        (c - 6) as u8
    }
}

/// Swapping colors and flipping the board vertically: square `i` of the
/// mirror shows the color-swapped piece of square `i ^ 56`, castling
/// rights flip in the same way, the en-passant square flips its rank, and
/// the side to move changes.
pub open spec fn spec_mirror(v: PosView) -> PosView {
    PosView {
        board: Seq::new(64, |i: int| mirror_code(v.board[flip_sq(i)])),
        turn_black: !v.turn_black,
        castling: Seq::new(64, |i: int| v.castling[flip_sq(i)]),
        ep_square: match v.ep_square {
            Some(e) => Some(flip_sq(e as int) as u8),
            None => None,
        },
    }
}

/// The square on the vertically flipped board: same file, rank `7 - rank`.
pub open spec fn flip_sq(i: int) -> int {
    8 * (7 - i / 8) + i % 8
}

proof fn lemma_flip_sq_involution(i: int)
    requires
        0 <= i < 64,
    ensures
        0 <= flip_sq(i) < 64,
        flip_sq(flip_sq(i)) == i,
        flip_sq(i) % 8 == i % 8,
        flip_sq(i) / 8 == 7 - i / 8,
{
}

/// The exec flip by XOR with 56 agrees with the arithmetic definition.
proof fn lemma_flip_sq_xor(u: u64)
    requires
        u < 64,
    ensures
        (u ^ 56) == flip_sq(u as int),
{
    assert(u < 64 ==> (u ^ 56) == 8 * (7 - u / 8) + u % 8) by (bit_vector);
}

/// Mirroring twice gives the position back.
pub proof fn lemma_mirror_involution(v: PosView)
    requires
        v.wf(),
    ensures
        spec_mirror(spec_mirror(v)) == v,
{
    let m = spec_mirror(v);
    let mm = spec_mirror(m);
    assert forall|i: int| 0 <= i < 64 implies mm.board[i] == v.board[i] && mm.castling[i]
        == v.castling[i] by {
        lemma_flip_sq_involution(i);
        lemma_flip_sq_involution(flip_sq(i));
        assert(mm.board[i] == mirror_code(mirror_code(v.board[i])));
    }
    if v.ep_square is Some {
        let e = v.ep_square.unwrap();
        lemma_flip_sq_involution(e as int);
    }
    assert(mm =~= v);
}

/// Mirroring preserves well-formedness.
pub proof fn lemma_mirror_wf(v: PosView)
    requires
        v.wf(),
    ensures
        spec_mirror(v).wf(),
{
    assert forall|i: int| 0 <= i < 64 implies spec_mirror(v).board[i] <= 12 by {
        lemma_flip_sq_involution(i);
    }
    if v.ep_square is Some {
        let e = v.ep_square.unwrap();
        lemma_flip_sq_involution(e as int);
    }
}

/// The plain values that a position holds: one bitboard per color and per
/// piece kind (bit `i` stands for square `i`), the side to move, the squares
/// of the castling rights, and the en-passant square if any.
#[derive(Clone, Copy, Debug)]
pub struct SetupParts {
    pub white: u64,
    pub black: u64,
    pub pawns: u64,
    pub knights: u64,
    pub bishops: u64,
    pub rooks: u64,
    pub queens: u64,
    pub kings: u64,
    pub turn_black: bool,
    pub castling: u64,
    pub ep_square: Option<u8>,
}

pub open spec fn bb_has(bb: u64, i: int) -> bool {
    (bb >> (i as u64)) & 1 == 1
}

/// Which of the six piece kinds claims square `i`, by the first matching
/// kind bitboard; 0 when none does.
pub open spec fn spec_role_at(p: SetupParts, i: int) -> u8 {
    if bb_has(p.pawns, i) {
        1u8
    } else if bb_has(p.knights, i) {
        2u8
    } else if bb_has(p.bishops, i) {
        3u8
    } else if bb_has(p.rooks, i) {
        4u8
    } else if bb_has(p.queens, i) {
        5u8
    } else if bb_has(p.kings, i) {
        6u8
    } else {
        0u8
    }
}

/// The piece code of square `i`: a color bit decides white or black, the
/// kind bitboards the piece; a square claimed by no color, or by a color
/// without a kind, is empty.
pub open spec fn spec_code_at(p: SetupParts, i: int) -> u8 {
    if bb_has(p.white, i) {
        spec_role_at(p, i)
    } else if bb_has(p.black, i) {
        if spec_role_at(p, i) == 0 {
            0u8
        } else {
            (spec_role_at(p, i) + 6) as u8
        }
    } else {
        0u8
    }
}

/// The position model a set of plain values describes: one piece code per
/// square, the castling squares, the turn and the en-passant square.
pub open spec fn spec_model(p: SetupParts) -> PosView {
    PosView {
        board: Seq::new(64, |i: int| spec_code_at(p, i)),
        turn_black: p.turn_black,
        castling: Seq::new(64, |i: int| bb_has(p.castling, i)),
        ep_square: p.ep_square,
    }
}

impl Position {
    /// Builds the position model from bitboard constituents.
    pub fn from_parts(p: &SetupParts) -> (r: Position)
        requires
            p.ep_square is Some ==> p.ep_square.unwrap() < 64,
        ensures
            r@.wf(),
            r@ == spec_model(*p),
    {
        let mut board: Vec<u8> = Vec::with_capacity(64);
        let mut castling: Vec<bool> = Vec::with_capacity(64);
        let mut i: usize = 0;
        while i < 64
            invariant
                i <= 64,
                board@.len() == i,
                castling@.len() == i,
                forall|j: int| 0 <= j < i ==> board@[j] == spec_code_at(*p, j),
                forall|j: int| 0 <= j < i ==> #[trigger] board@[j] <= 12,
                forall|j: int| 0 <= j < i ==> castling@[j] == bb_has(p.castling, j),
            decreases 64 - i,
        {
            let role: u8 = if (p.pawns >> (i as u64)) & 1 == 1 {
                1
            } else if (p.knights >> (i as u64)) & 1 == 1 {
                2
            } else if (p.bishops >> (i as u64)) & 1 == 1 {
                3
            } else if (p.rooks >> (i as u64)) & 1 == 1 {
                4
            } else if (p.queens >> (i as u64)) & 1 == 1 {
                5
            } else if (p.kings >> (i as u64)) & 1 == 1 {
                6
            } else {
                0
            };
            let code: u8 = if (p.white >> (i as u64)) & 1 == 1 {
                role
            } else if (p.black >> (i as u64)) & 1 == 1 {
                if role == 0 {
                    0
                } else {
                    role + 6
                }
            } else {
                0
            };
            board.push(code);
            castling.push((p.castling >> (i as u64)) & 1 == 1);
            i += 1;
        }
        let r = Position { board, turn_black: p.turn_black, castling, ep_square: p.ep_square };
        proof {
            assert(r@ =~= spec_model(*p));
        }
        r
    }

    /// The color-mirrored position.
    pub fn mirror(&self) -> (r: Position)
        requires
            self@.wf(),
        ensures
            r@ == spec_mirror(self@),
            r@.wf(),
    {
        let mut board: Vec<u8> = Vec::with_capacity(64);
        let mut castling: Vec<bool> = Vec::with_capacity(64);
        let mut i: usize = 0;
        while i < 64
            invariant
                self@.wf(),
                i <= 64,
                board@.len() == i,
                castling@.len() == i,
                forall|j: int| 0 <= j < i ==> board@[j] == spec_mirror(self@).board[j],
                forall|j: int| 0 <= j < i ==> castling@[j] == spec_mirror(self@).castling[j],
            decreases 64 - i,
        {
            proof {
                lemma_flip_sq_involution(i as int);
                lemma_flip_sq_xor(i as u64);
            }
            let src: usize = i ^ 56;
            let c = self.board[src];
            let mc: u8 = if c == 0 {
                0
            } else if c <= 6 {
                c + 6
            } else {
                c - 6
            };
            board.push(mc);
            castling.push(self.castling[src]);
            i += 1;
        }
        let ep_square = match self.ep_square {
            Some(e) => {
                proof {
                    lemma_flip_sq_involution(e as int);
                    lemma_flip_sq_xor(e as u64);
                }
                Some(e ^ 56)
            },
            None => None,
        };
        let r = Position { board, turn_black: !self.turn_black, castling, ep_square };
        proof {
            lemma_mirror_wf(self@);
            assert(r@ =~= spec_mirror(self@));
        }
        r
    }
}

} // verus!
