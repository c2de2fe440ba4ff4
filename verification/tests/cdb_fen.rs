use lila_cloudeval::cdb_fen::{cdb_fen, NaturalOrder};
use lila_cloudeval::legacy_key::hex_fen;
use lila_cloudeval::position::{Position, SetupParts};

fn pos_from_fen(fen: &str) -> Position {
    let setup = shakmaty::fen::Fen::from_ascii(fen.as_bytes())
        .expect("fen")
        .into_setup();
    Position::from_parts(&SetupParts {
        white: setup.board.white().into(),
        black: setup.board.black().into(),
        pawns: setup.board.pawns().into(),
        knights: setup.board.knights().into(),
        bishops: setup.board.bishops().into(),
        rooks: setup.board.rooks().into(),
        queens: setup.board.queens().into(),
        kings: setup.board.kings().into(),
        turn_black: setup.turn.is_black(),
        castling: setup.castling_rights.into(),
        ep_square: setup.ep_square.map(|sq| sq.to_u32() as u8),
    })
}

fn hex(bytes: &[u8]) -> String {
    let mut s = String::new();
    for b in bytes {
        s.push_str(&format!("{:02x}", b));
    }
    s
}

/// Packs a nibble string (one hex char per nibble) into the hex of the
/// packed bytes, padding a trailing odd nibble with zero.
fn packed(nibbles: &str) -> String {
    let mut s = String::from(nibbles);
    if s.len() % 2 == 1 {
        s.push('0');
    }
    s
}

#[test]
fn test_legacy_key_reference() {
    let pos = pos_from_fen("rnbqkbr1/ppp1pppp/3P1n2/8/8/5N2/PPPP1PPP/RNBQKB1R b KQq - 0 4");
    let reference = "64579560333033332a041848481b1aaaa0aaadbcefc0d1abd9";
    assert_eq!(hex_fen(&pos), reference.as_bytes().to_vec());
}

#[test]
fn startpos_canonical_key() {
    let pos = pos_from_fen("rnbqkbnr/pppppppp/8/8/8/8/PPPPPPPP/RNBQKBNR w KQkq - 0 1");
    let (key, order) = cdb_fen(&pos);
    assert!(matches!(order, NaturalOrder::Same));
    // Prefix byte 'h'; ranks 8 and 7; four empty ranks; ranks 2 and 1;
    // white to move; castling K Q k q; delimiter; no en passant.
    let expected_nibbles = "68645795463333333384848484aaaaaaaadbcefcbd0abcd9";
    assert_eq!(hex(key.as_bytes()), packed(expected_nibbles));
    assert_eq!(key.as_bytes()[0], 0x68);
}

#[test]
fn mirrored_position_same_key_opposite_order() {
    let pos = pos_from_fen("rnbqkbnr/pppppppp/8/8/8/8/PPPPPPPP/RNBQKBNR w KQkq - 0 1");
    let mirrored = pos_from_fen("rnbqkbnr/pppppppp/8/8/8/8/PPPPPPPP/RNBQKBNR b KQkq - 0 1");
    let (key, order) = cdb_fen(&pos);
    let (key_bw, order_bw) = cdb_fen(&mirrored);
    assert_eq!(key.as_bytes(), key_bw.as_bytes());
    assert!(matches!(order, NaturalOrder::Same));
    assert!(matches!(order_bw, NaturalOrder::Mirror));
}

#[test]
fn canonical_key_is_smaller_encoding() {
    // Asymmetric material so the two encodings differ.
    let pos = pos_from_fen("4k3/8/8/8/8/8/8/QQQQKQQQ w - - 0 1");
    let mirrored = pos.mirror();
    let mut own = lila_cloudeval::nibbles::Nibbles::new();
    lila_cloudeval::cdb_fen::push_cdb_fen(&mut own, &pos);
    let mut other = lila_cloudeval::nibbles::Nibbles::new();
    lila_cloudeval::cdb_fen::push_cdb_fen(&mut other, &mirrored);
    let (key, order) = cdb_fen(&pos);
    let smaller = if own.as_bytes() < other.as_bytes() {
        own.as_bytes().to_vec()
    } else {
        other.as_bytes().to_vec()
    };
    assert_eq!(key.as_bytes(), &smaller[..]);
    let expect_mirror = other.as_bytes() < own.as_bytes();
    assert_eq!(matches!(order, NaturalOrder::Mirror), expect_mirror);
}

#[test]
fn empty_castling_single_zero_nibble() {
    let pos = pos_from_fen("rnbqkbnr/pppppppp/8/8/8/8/PPPPPPPP/RNBQKBNR w - - 0 1");
    let (key, order) = cdb_fen(&pos);
    assert!(matches!(order, NaturalOrder::Same));
    // As the start position, but the castling section is the single 0
    // nibble after the turn nibble.
    let expected_nibbles = "68645795463333333384848484aaaaaaaadbcefcbd009";
    // 45 nibbles: the key ends on a padded byte.
    assert_eq!(hex(key.as_bytes()), packed(expected_nibbles));
    assert_eq!(key.as_bytes().len(), 23);
}

#[test]
fn en_passant_square_appends_two_nibbles() {
    let pos = pos_from_fen("rnbqkbnr/pppppppp/8/8/4P3/8/PPPP1PPP/RNBQKBNR b KQkq e3 0 1");
    let mut own = lila_cloudeval::nibbles::Nibbles::new();
    lila_cloudeval::cdb_fen::push_cdb_fen(&mut own, &pos);
    let h = hex(own.as_bytes());
    // e3: file e is nibble 5, rank 3 is nibble 3, after the delimiter 9.
    assert!(h.ends_with("953"));

    let no_ep = pos_from_fen("rnbqkbnr/pppppppp/8/8/4P3/8/PPPP1PPP/RNBQKBNR b KQkq - 0 1");
    let mut own_no_ep = lila_cloudeval::nibbles::Nibbles::new();
    lila_cloudeval::cdb_fen::push_cdb_fen(&mut own_no_ep, &no_ep);
    assert!(hex(own_no_ep.as_bytes()).ends_with("9"));
    assert_eq!(own.as_bytes().len(), own_no_ep.as_bytes().len() + 1);
}

#[test]
fn mirror_is_an_involution() {
    let pos = pos_from_fen("rnbqkbr1/ppp1pppp/3P1n2/8/8/5N2/PPPP1PPP/RNBQKB1R b KQq - 0 4");
    let back = pos.mirror().mirror();
    assert_eq!(pos.board, back.board);
    assert_eq!(pos.turn_black, back.turn_black);
    assert_eq!(pos.castling, back.castling);
    assert_eq!(pos.ep_square, back.ep_square);
}

/// A position with only kings off the back ranks and one rook with a
/// castling right on `file`: the rook can be neither a king-side nor a
/// queen-side rook, so its file is written out Chess960-style.
fn chess960_rook_pos(black: bool, file: usize) -> Position {
    let mut board = vec![0u8; 64];
    let mut castling = vec![false; 64];
    // Kings away from the back ranks.
    board[28] = 6; // white king e4
    board[36] = 12; // black king e5
    if black {
        board[56 + file] = 10; // black rook
        castling[56 + file] = true;
    } else {
        board[file] = 4; // white rook
        castling[file] = true;
    }
    Position {
        board,
        turn_black: false,
        castling,
        ep_square: None,
    }
}

#[test]
fn chess960_castling_all_rook_files() {
    for file in 0..8 {
        // White: prefix symbol 'e' then the file letter in the legacy text.
        let white = chess960_rook_pos(false, file);
        let text = String::from_utf8(hex_fen(&white)).expect("ascii");
        let expected = format!("e{}9", (b'a' + file as u8) as char);
        assert!(
            text.ends_with(&expected),
            "file {}: {} should end with {}",
            file,
            text,
            expected
        );

        // Black: a single symbol, 1 + file.
        let black = chess960_rook_pos(true, file);
        let text = String::from_utf8(hex_fen(&black)).expect("ascii");
        let expected = format!("{}9", file + 1);
        assert!(
            text.ends_with(&expected),
            "file {}: {} should end with {}",
            file,
            text,
            expected
        );
    }
}

#[test]
fn chess960_castling_binary_key_nibbles() {
    // The binary key writes the white file as 1 + file, behind the 0xe prefix.
    let white = chess960_rook_pos(false, 6);
    let mut n = lila_cloudeval::nibbles::Nibbles::new();
    lila_cloudeval::cdb_fen::push_cdb_fen(&mut n, &white);
    assert!(hex(n.as_bytes()).ends_with("e79"));
}

#[test]
fn standard_castling_nibbles() {
    // With the king on its back rank, edge rooks encode as K/Q letters.
    let pos = pos_from_fen("r3k2r/8/8/8/8/8/8/R3K2R w KQkq - 0 1");
    let mut n = lila_cloudeval::nibbles::Nibbles::new();
    lila_cloudeval::cdb_fen::push_cdb_fen(&mut n, &pos);
    // White K then Q, black k then q, delimiter.
    assert!(hex(n.as_bytes()).ends_with("abcd9"));
}
