use lila_cloudeval::cdb_fen::NaturalOrder;
use lila_cloudeval::cdb_moves::{
    uci_ascii, PromotionRole, RelativeScore, ScoredMove, ScoredMoves, UciMove,
};
use lila_cloudeval::error::Error;

fn record(dst: u8, src: u8, score: i16) -> Vec<u8> {
    let le = score.to_le_bytes();
    vec![dst, src, le[0], le[1]]
}

fn mv(from: u8, to: u8, promotion: Option<PromotionRole>) -> UciMove {
    UciMove {
        from,
        to,
        promotion,
    }
}

#[test]
fn empty_blob_decodes_empty() {
    let sm = ScoredMoves::read_cdb(&[], NaturalOrder::Same).expect("ok");
    assert!(sm.is_empty());
    assert_eq!(sm.len(), 0);
    assert_eq!(sm.ply_from_root(), None);
}

#[test]
fn sentinel_only_blob() {
    // dst = 0, src = 0, score = 5 little-endian.
    let blob = [0x00, 0x00, 0x05, 0x00];
    let sm = ScoredMoves::read_cdb(&blob, NaturalOrder::Same).expect("ok");
    assert_eq!(sm.len(), 0);
    assert_eq!(sm.ply_from_root(), Some(5));
}

#[test]
fn simple_move_negates_score() {
    // e2e4 stored with score -50: decoded score is +50.
    let blob = record(40, 22, -50);
    let sm = ScoredMoves::read_cdb(&blob, NaturalOrder::Same).expect("ok");
    assert_eq!(sm.len(), 1);
    let m = &sm.moves()[0];
    assert_eq!(m.uci, mv(12, 28, None)); // e2 -> e4
    assert_eq!(m.score, RelativeScore(50));
    assert_eq!(uci_ascii(&m.uci), b"e2e4".to_vec());
}

#[test]
fn record_count_with_sentinel() {
    // Two moves and a sentinel: 12 bytes, 2 moves, ply set.
    let mut blob = record(40, 22, -50);
    blob.extend(record(0, 0, 7));
    blob.extend(record(39, 21, 10));
    let sm = ScoredMoves::read_cdb(&blob, NaturalOrder::Same).expect("ok");
    assert_eq!(sm.len(), blob.len() / 4 - 1);
    assert_eq!(sm.ply_from_root(), Some(7));
    assert_eq!(sm.moves()[1].uci, mv(11, 27, None)); // d2 -> d4
    assert_eq!(sm.moves()[1].score, RelativeScore(-10));
}

#[test]
fn mirrored_decode_flips_ranks() {
    // e2e4 decoded under the mirrored orientation becomes e7e5.
    let blob = record(40, 22, -50);
    let sm = ScoredMoves::read_cdb(&blob, NaturalOrder::Mirror).expect("ok");
    let m = &sm.moves()[0];
    assert_eq!(m.uci, mv(52, 36, None));
    assert_eq!(uci_ascii(&m.uci), b"e7e5".to_vec());
    assert_eq!(m.score, RelativeScore(50));
}

#[test]
fn promotions_up_all_roles() {
    // a7 to a8: source index 63 (rank 7, file a); promotion bit set.
    // Destination row picks the role: 0 queen, 1 rook, 2 bishop, 3 knight.
    let cases = [
        (0x80u8, PromotionRole::Queen, b"a7a8q".to_vec()),
        (0x89u8, PromotionRole::Rook, b"a7a8r".to_vec()),
        (0x92u8, PromotionRole::Bishop, b"a7a8b".to_vec()),
        (0x9bu8, PromotionRole::Knight, b"a7a8n".to_vec()),
    ];
    for (dst, role, text) in cases {
        let blob = record(dst, 63, -123);
        let sm = ScoredMoves::read_cdb(&blob, NaturalOrder::Same).expect("ok");
        let m = &sm.moves()[0];
        assert_eq!(m.uci, mv(48, 56, Some(role)));
        assert_eq!(m.score, RelativeScore(123));
        assert_eq!(uci_ascii(&m.uci), text);
    }
}

#[test]
fn promotions_down() {
    // a2 to a1: source index 18 (rank 2, file a).
    let blob = record(0x80, 18, 77);
    let sm = ScoredMoves::read_cdb(&blob, NaturalOrder::Same).expect("ok");
    assert_eq!(sm.moves()[0].uci, mv(8, 0, Some(PromotionRole::Queen)));
    // And mirrored: a7a8 with the same promotion.
    let sm = ScoredMoves::read_cdb(&blob, NaturalOrder::Mirror).expect("ok");
    assert_eq!(sm.moves()[0].uci, mv(48, 56, Some(PromotionRole::Queen)));
}

#[test]
fn promotion_decodes_in_place_within_larger_blob() {
    // A promotion record between ordinary records and a sentinel decodes
    // at its own place in record order.
    let mut blob = record(40, 22, -50); // e2e4
    blob.extend(record(0x89, 63, -7)); // a7a8r
    blob.extend(record(0, 0, 3)); // sentinel, ply 3
    blob.extend(record(39, 21, 10)); // d2d4
    let sm = ScoredMoves::read_cdb(&blob, NaturalOrder::Same).expect("ok");
    assert_eq!(sm.len(), 3);
    assert_eq!(sm.ply_from_root(), Some(3));
    assert_eq!(sm.moves()[1].uci, mv(48, 56, Some(PromotionRole::Rook)));
    assert_eq!(sm.moves()[1].score, RelativeScore(7));
    assert_eq!(sm.moves()[2].uci, mv(11, 27, None));
}

#[test]
fn malformed_blobs_rejected() {
    // Length not a multiple of four.
    assert_eq!(
        ScoredMoves::read_cdb(&[1, 2, 3], NaturalOrder::Same).unwrap_err(),
        Error::MalformedBlob
    );
    // Invalid source square index (column 8 of the table).
    assert_eq!(
        ScoredMoves::read_cdb(&record(40, 17, 1), NaturalOrder::Same).unwrap_err(),
        Error::MalformedBlob
    );
    // Invalid destination square index.
    assert_eq!(
        ScoredMoves::read_cdb(&record(81, 22, 1), NaturalOrder::Same).unwrap_err(),
        Error::MalformedBlob
    );
    // Promotion from a rank other than the second or seventh.
    assert_eq!(
        ScoredMoves::read_cdb(&record(0x80, 40, 1), NaturalOrder::Same).unwrap_err(),
        Error::MalformedBlob
    );
    // Promotion destination row beyond the role rows.
    assert_eq!(
        ScoredMoves::read_cdb(&record(0x80 | 45, 63, 1), NaturalOrder::Same).unwrap_err(),
        Error::MalformedBlob
    );
    // A move score of i16::MIN cannot be negated.
    assert_eq!(
        ScoredMoves::read_cdb(&record(40, 22, i16::MIN), NaturalOrder::Same).unwrap_err(),
        Error::MalformedBlob
    );
    // A negative sentinel score is not a ply count.
    assert_eq!(
        ScoredMoves::read_cdb(&record(0, 0, -1), NaturalOrder::Same).unwrap_err(),
        Error::MalformedBlob
    );
}

#[test]
fn sort_desc_orders_scores() {
    let mut blob = Vec::new();
    blob.extend(record(40, 22, -10)); // decoded +10
    blob.extend(record(39, 21, 30)); // decoded -30
    blob.extend(record(41, 23, -90)); // decoded +90
    let sm = ScoredMoves::read_cdb(&blob, NaturalOrder::Same).expect("ok");
    let sorted = sm.into_sorted();
    let scores: Vec<i16> = sorted.moves().iter().map(|m| m.score.0).collect();
    assert_eq!(scores, vec![90, 10, -30]);
    for w in scores.windows(2) {
        assert!(w[0] >= w[1]);
    }
}

#[test]
fn num_good_moves_counts_non_negative() {
    let mut blob = Vec::new();
    blob.extend(record(40, 22, 0)); // decoded 0: good
    blob.extend(record(39, 21, 5)); // decoded -5: not good
    blob.extend(record(41, 23, -5)); // decoded +5: good
    let sm = ScoredMoves::read_cdb(&blob, NaturalOrder::Same).expect("ok");
    assert_eq!(sm.num_good_moves(), 2);
}

#[test]
fn best_prefix_keeps_ties() {
    // Scores after sorting: 90, 50, 50, 50, 10.
    let mut blob = Vec::new();
    blob.extend(record(40, 22, -90));
    blob.extend(record(39, 21, -50));
    blob.extend(record(41, 23, -50));
    blob.extend(record(38, 20, -50));
    blob.extend(record(42, 24, -10));
    let sorted = ScoredMoves::read_cdb(&blob, NaturalOrder::Same)
        .expect("ok")
        .into_sorted();
    // k = 2: the 50-tie is fully included.
    let best = sorted.into_best_moves(2);
    let scores: Vec<i16> = best.moves().iter().map(|m| m.score.0).collect();
    assert_eq!(scores, vec![90, 50, 50, 50]);
}

#[test]
fn best_prefix_edge_cases() {
    let mut blob = Vec::new();
    blob.extend(record(40, 22, -90));
    blob.extend(record(39, 21, -50));
    let sorted = ScoredMoves::read_cdb(&blob, NaturalOrder::Same)
        .expect("ok")
        .into_sorted();
    assert_eq!(sorted.len(), 2);
    // k = 0 keeps nothing.
    let none = ScoredMoves::read_cdb(&blob, NaturalOrder::Same)
        .expect("ok")
        .into_sorted()
        .into_best_moves(0);
    assert!(none.is_empty());
    // k beyond the length keeps everything.
    let all = sorted.into_best_moves(10);
    assert_eq!(all.len(), 2);
}

#[test]
fn best_moves_share_top_score() {
    let mut blob = Vec::new();
    blob.extend(record(40, 22, -70));
    blob.extend(record(39, 21, -70));
    blob.extend(record(41, 23, -10));
    let best = ScoredMoves::read_cdb(&blob, NaturalOrder::Same)
        .expect("ok")
        .into_sorted()
        .into_best_moves(1);
    assert_eq!(best.len(), 2);
    assert!(best.moves().iter().all(|m| m.score.0 == 70));
}

#[test]
fn extend_from_cdb_appends_and_keeps_ply() {
    let mut sm = ScoredMoves::new();
    assert!(sm
        .extend_from_cdb(&record(40, 22, -50), NaturalOrder::Same)
        .is_ok());
    let mut second = record(39, 21, -20);
    second.extend(record(0, 0, 9));
    assert!(sm.extend_from_cdb(&second, NaturalOrder::Same).is_ok());
    assert_eq!(sm.len(), 2);
    assert_eq!(sm.ply_from_root(), Some(9));
    // A bad blob leaves the list unchanged.
    assert!(sm.extend_from_cdb(&[1], NaturalOrder::Same).is_err());
    assert_eq!(sm.len(), 2);
    sm.clear();
    assert!(sm.is_empty());
    assert_eq!(sm.ply_from_root(), None);
}

#[test]
fn with_capacity_starts_empty() {
    let sm = ScoredMoves::with_capacity(16);
    assert!(sm.is_empty());
    assert_eq!(sm.ply_from_root(), None);
    let sorted = sm.into_sorted();
    assert!(sorted.is_empty());
    assert_eq!(sorted.ply_from_root(), None);
    assert_eq!(sorted.into_moves(), Vec::<ScoredMove>::new());
}
