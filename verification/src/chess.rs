use vstd::prelude::*;

use crate::cdb_fen::{spec_canonical_key, spec_natural_order, NaturalOrder};
use crate::cdb_moves::PromotionRole;
use crate::position::{spec_model, Position, SetupParts};

verus! {

/// Whether the FEN parser accepts these bytes as a legal Chess960
/// position: its verdict depends on the bytes alone.
pub uninterp spec fn fen_ok(s: Seq<u8>) -> bool;

/// The plain values of a position, as the chess library hands them out:
/// they depend on the position alone.
pub uninterp spec fn chess_parts_of(pos: shakmaty::Chess) -> SetupParts;

/// How many legal moves the side to move has: a function of the position
/// alone.
pub uninterp spec fn legal_count_of(pos: shakmaty::Chess) -> usize;

/// What playing the move named by two squares and a promotion letter does
/// to a position: the resulting position and the move as the line prints
/// it, or nothing when the move is not legal. A function of the position
/// and the move alone.
pub uninterp spec fn play_of(pos: shakmaty::Chess, from: u8, to: u8, promotion: u8) -> Option<
    (shakmaty::Chess, u8, u8, u8),
>;

/// The promotion letter of a piece: 0 for none, else its lowercase letter.
pub open spec fn spec_promotion_char(p: Option<PromotionRole>) -> u8 {
    match p {
        None => 0u8,
        Some(PromotionRole::Queen) => 0x71u8,
        Some(PromotionRole::Rook) => 0x72u8,
        Some(PromotionRole::Bishop) => 0x62u8,
        Some(PromotionRole::Knight) => 0x6eu8,
    }
}

/// The promotion piece of a letter: lowercase letters name the pieces, any
/// other value none.
pub open spec fn spec_promotion_of_char(c: u8) -> Option<PromotionRole> {
    if c == 0x71 {
        Some(PromotionRole::Queen)
    } else if c == 0x72 {
        Some(PromotionRole::Rook)
    } else if c == 0x62 {
        Some(PromotionRole::Bishop)
    } else if c == 0x6e {
        Some(PromotionRole::Knight)
    } else {
        None
    }
}

/// The model of a position: the plain values the chess library hands out,
/// read as a board.
pub open spec fn spec_pos_model(pos: shakmaty::Chess) -> crate::position::PosView {
    spec_model(chess_parts_of(pos))
}

/// The canonical key the store holds a position under.
pub open spec fn spec_pos_key(pos: shakmaty::Chess) -> Seq<u8> {
    spec_canonical_key(spec_pos_model(pos))
}

/// The orientation of a position's canonical key.
pub open spec fn spec_pos_order(pos: shakmaty::Chess) -> NaturalOrder {
    spec_natural_order(spec_pos_model(pos))
}

/// A legal chess position with its rule state, kept by the outside chess
/// library; the library itself never looks inside and models what the key
/// encoding reads through `setup_parts`.
#[verifier::external_type_specification]
#[verifier::external_body]
pub struct ExChess(shakmaty::Chess);

/// Relies on shakmaty's `Fen::from_ascii` and `Fen::into_position`: parses
/// a FEN and checks it describes a legal position, with Chess960 castling
/// rights; it succeeds exactly on the byte strings the parser accepts. The
/// error carries the parser's message.
#[verifier::external_body]
fn parse_fen_raw(fen: &[u8]) -> (r: Result<shakmaty::Chess, String>)
    ensures
        r is Ok <==> fen_ok(fen@),
{
    match shakmaty::fen::Fen::from_ascii(fen) {
        Ok(parsed) => match parsed.into_position::<shakmaty::Chess>(
            shakmaty::CastlingMode::Chess960,
        ) {
            Ok(pos) => Ok(pos),
            Err(e) => Err(format!("{}", e)),
        },
        Err(e) => Err(format!("{}", e)),
    }
}

/// Relies on shakmaty's `Position::to_setup` with legal en-passant mode and
/// the board's bitboard accessors: hands out the position as plain values,
/// a function of the position alone. A square index is always below 64.
#[verifier::external_body]
fn setup_parts(pos: &shakmaty::Chess) -> (r: SetupParts)
    ensures
        r == chess_parts_of(*pos),
        r.ep_square is Some ==> r.ep_square.unwrap() < 64,
{
    let s = shakmaty::Position::to_setup(pos, shakmaty::EnPassantMode::Legal);
    let b = &s.board;
    SetupParts {
        white: b.white().into(), black: b.black().into(), pawns: b.pawns().into(),
        knights: b.knights().into(), bishops: b.bishops().into(), rooks: b.rooks().into(),
        queens: b.queens().into(), kings: b.kings().into(), turn_black: s.turn.is_black(),
        castling: s.castling_rights.into(),
        ep_square: s.ep_square.map(|sq| sq.to_u32() as u8),
    }
}

/// Parses a FEN into a legal position, with Chess960 castling rights; a
/// string that does not parse, or does not describe a legal position, is a
/// bad position and reported with the parser's message.
pub fn parse_fen(fen: &[u8]) -> (r: Result<shakmaty::Chess, crate::error::Error>)
    ensures
        r is Ok <==> fen_ok(fen@),
        r matches Err(e) ==> e is BadPosition,
{
    match parse_fen_raw(fen) {
        Ok(pos) => Ok(pos),
        Err(msg) => Err(crate::error::Error::BadPosition(msg)),
    }
}

/// The model of the position that the key encoding reads.
pub fn position_of_chess(pos: &shakmaty::Chess) -> (r: Position)
    ensures
        r@ == spec_pos_model(*pos),
        r@.wf(),
{
    let parts = setup_parts(pos);
    Position::from_parts(&parts)
}

/// Relies on shakmaty's Zobrist hashing with legal en-passant mode: a
/// 64-bit hash of the position.
#[verifier::external_body]
pub(crate) fn zobrist_hash(pos: &shakmaty::Chess) -> (r: u64) {
    <shakmaty::Chess as shakmaty::zobrist::ZobristHash>::zobrist_hash::<
        shakmaty::zobrist::Zobrist64,
    >(pos, shakmaty::EnPassantMode::Legal).0
}

/// Relies on shakmaty's move generation: how many legal moves the side to
/// move has, a function of the position alone.
#[verifier::external_body]
pub(crate) fn legal_move_count(pos: &shakmaty::Chess) -> (r: usize)
    ensures
        r == legal_count_of(*pos),
{
    shakmaty::Position::legal_moves(pos).len()
}

/// Relies on shakmaty's `UciMove::to_move` and `Position::play_unchecked`:
/// plays the move named by the squares and promotion letter if it is
/// legal, and returns the resulting position together with the move as
/// re-rendered in Chess960 style (a castling move becomes king-takes-rook),
/// whose squares are again below 64. `None` when the move is not legal.
/// The result is a function of the position and the move alone.
#[verifier::external_body]
pub(crate) fn play_uci(pos: &shakmaty::Chess, from: u8, to: u8, promotion: u8) -> (r: Option<
    (shakmaty::Chess, u8, u8, u8),
>)
    requires
        from < 64,
        to < 64,
        promotion == 0 || promotion == 0x71 || promotion == 0x72 || promotion == 0x62 || promotion
            == 0x6e,
    ensures
        r == play_of(*pos, from, to, promotion),
        r is Some ==> r.unwrap().1 < 64 && r.unwrap().2 < 64,
{
    let promo = if promotion == 0 { None } else { shakmaty::Role::from_char(promotion as char) };
    let uci = shakmaty::uci::UciMove::Normal {
        from: shakmaty::Square::new(from as u32), to: shakmaty::Square::new(to as u32),
        promotion: promo,
    };
    let m = uci.to_move(pos).ok()?;
    let mut next = pos.clone();
    shakmaty::Position::play_unchecked(&mut next, m);
    match shakmaty::uci::UciMove::from_chess960(m) {
        shakmaty::uci::UciMove::Normal { from, to, promotion } => Some(
            (next, from.to_u32() as u8, to.to_u32() as u8,
            promotion.map_or(0, |role| role.char() as u8)),
        ),
        _ => None,
    }
}

/// The promotion letter handed to the chess library: 0 for none, else the
/// piece's lowercase letter.
pub fn promotion_char(p: Option<PromotionRole>) -> (r: u8)
    ensures
        r == spec_promotion_char(p),
        r == 0 || r == 0x71 || r == 0x72 || r == 0x62 || r == 0x6e,
{
    match p {
        None => 0,
        Some(PromotionRole::Queen) => 0x71,
        Some(PromotionRole::Rook) => 0x72,
        Some(PromotionRole::Bishop) => 0x62,
        Some(PromotionRole::Knight) => 0x6e,
    }
}

/// The promotion piece of a letter handed back by the chess library.
pub fn promotion_of_char(c: u8) -> (r: Option<PromotionRole>)
    ensures
        r == spec_promotion_of_char(c),
{
    if c == 0x71 {
        Some(PromotionRole::Queen)
    } else if c == 0x72 {
        Some(PromotionRole::Rook)
    } else if c == 0x62 {
        Some(PromotionRole::Bishop)
    } else if c == 0x6e {
        Some(PromotionRole::Knight)
    } else {
        None
    }
}

} // verus!
