use lila_cloudeval::cdb_moves::{uci_ascii, PromotionRole};
use lila_cloudeval::chess::{parse_fen, promotion_char, promotion_of_char};
use lila_cloudeval::error::Error;
use lila_cloudeval::pv::{
    validate_multi_pv, Fetched, MultiPvRoot, PvDescent, PvQuery, RootStep,
};

const STARTPOS: &str = "rnbqkbnr/pppppppp/8/8/8/8/PPPPPPPP/RNBQKBNR w KQkq - 0 1";

fn record(dst: u8, src: u8, score: i16) -> Vec<u8> {
    let le = score.to_le_bytes();
    vec![dst, src, le[0], le[1]]
}

/// A blob with `good` decoded-non-negative moves and `bad` negative ones,
/// all from distinct squares.
fn child_blob(good: usize, bad: usize) -> Vec<u8> {
    assert!(good + bad <= 7);
    let mut blob = Vec::new();
    for i in 0..good {
        blob.extend(record(18 + i as u8, 9 + i as u8, 0));
    }
    for i in good..good + bad {
        blob.extend(record(18 + i as u8, 9 + i as u8, 1));
    }
    blob
}

fn expect_fetch(step: Result<PvQuery, Error>) -> Vec<Vec<u8>> {
    match step.expect("no error") {
        PvQuery::Fetch(keys) => keys,
        PvQuery::Done => panic!("expected a fetch"),
    }
}

fn expect_done(step: Result<PvQuery, Error>) {
    match step.expect("no error") {
        PvQuery::Done => {}
        PvQuery::Fetch(_) => panic!("expected the descent to be done"),
    }
}

#[test]
fn descent_single_best_line() {
    // One stored move per position: e2e4, then (black) e7e5 under the
    // mirrored child key, then the next position is absent.
    let pos = parse_fen(STARTPOS.as_bytes()).expect("legal");
    let mut descent = PvDescent::start(pos, 10);
    let keys = expect_fetch(descent.next(Vec::new()));
    assert_eq!(keys.len(), 1);
    assert_eq!(keys[0][0], 0x68);

    // Root: the single best move e2e4 (stored score -50, decoded +50).
    let keys = expect_fetch(descent.next(vec![Fetched::Value(record(40, 22, -50))]));
    assert_eq!(keys.len(), 1);

    // The child position is read next; report it missing.
    expect_done(descent.next(vec![Fetched::Missing]));
    let line = descent.into_line();
    assert_eq!(line.len(), 1);
    assert_eq!(uci_ascii(&line[0]), b"e2e4".to_vec());
}

#[test]
fn descent_tiebreak_prefers_fewer_good_replies() {
    // Two moves tied at the top: e2e4 and d2d4. The child after e2e4 has
    // 7 good replies, the child after d2d4 has 3: d2d4 wins.
    let pos = parse_fen(STARTPOS.as_bytes()).expect("legal");
    let mut descent = PvDescent::start(pos, 10);
    expect_fetch(descent.next(Vec::new()));

    let mut root = record(40, 22, -50); // e2e4
    root.extend(record(39, 21, -50)); // d2d4
    let keys = expect_fetch(descent.next(vec![Fetched::Value(root)]));
    assert_eq!(keys.len(), 2);

    let replies = vec![
        Fetched::Value(child_blob(7, 0)),
        Fetched::Value(child_blob(3, 4)),
    ];
    expect_fetch(descent.next(replies));
    expect_done(descent.next(vec![Fetched::Missing]));
    let line = descent.into_line();
    assert_eq!(line.len(), 1);
    assert_eq!(uci_ascii(&line[0]), b"d2d4".to_vec());
}

#[test]
fn descent_tiebreak_missing_child_counts_zero() {
    // The child after e2e4 is absent (0 good replies): e2e4 wins over
    // d2d4 whose child has 1 good reply.
    let pos = parse_fen(STARTPOS.as_bytes()).expect("legal");
    let mut descent = PvDescent::start(pos, 10);
    expect_fetch(descent.next(Vec::new()));
    let mut root = record(40, 22, -50);
    root.extend(record(39, 21, -50));
    expect_fetch(descent.next(vec![Fetched::Value(root)]));
    expect_fetch(descent.next(vec![Fetched::Missing, Fetched::Value(child_blob(1, 0))]));
    expect_done(descent.next(vec![Fetched::Missing]));
    let line = descent.into_line();
    assert_eq!(uci_ascii(&line[0]), b"e2e4".to_vec());
}

#[test]
fn descent_stops_on_length_bound() {
    let pos = parse_fen(STARTPOS.as_bytes()).expect("legal");
    let mut descent = PvDescent::start(pos, 0);
    expect_done(descent.next(Vec::new()));
    assert_eq!(descent.into_line().len(), 0);
}

#[test]
fn descent_stops_on_repetition() {
    // Knights out and back: g1f3 g8f6 f3g1 f6g8 returns to the start
    // position, which the seen-set catches; the line has four moves even
    // though the store always answers.
    let pos = parse_fen(STARTPOS.as_bytes()).expect("legal");
    let mut descent = PvDescent::start(pos, 100);
    expect_fetch(descent.next(Vec::new()));
    // Each blob is stored under its position's canonical key: where that
    // key is the mirrored encoding, the record holds the mirrored move.
    let moves = [
        record(32, 15, -10), // g1f3 (its own orientation)
        record(32, 15, -10), // g8f6, mirrored
        record(15, 32, -10), // f3g1 (its own orientation)
        record(78, 59, -10), // f6g8 (its own orientation)
    ];
    let mut steps = 0;
    for m in &moves {
        match descent.next(vec![Fetched::Value(m.clone())]).expect("ok") {
            PvQuery::Fetch(_) => steps += 1,
            PvQuery::Done => break,
        }
    }
    let line = descent.into_line();
    assert_eq!(line.len(), 4);
    assert_eq!(steps, 3);
    let text: Vec<Vec<u8>> = line.iter().map(uci_ascii).collect();
    assert_eq!(
        text,
        vec![
            b"g1f3".to_vec(),
            b"g8f6".to_vec(),
            b"f3g1".to_vec(),
            b"f6g8".to_vec()
        ]
    );
}

#[test]
fn descent_propagates_store_errors() {
    let pos = parse_fen(STARTPOS.as_bytes()).expect("legal");
    let mut descent = PvDescent::start(pos, 10);
    expect_fetch(descent.next(Vec::new()));
    let err = descent
        .next(vec![Fetched::Failed(String::from("corruption"))])
        .unwrap_err();
    assert_eq!(err, Error::DbError(String::from("corruption")));
}

#[test]
fn descent_rejects_malformed_blob() {
    let pos = parse_fen(STARTPOS.as_bytes()).expect("legal");
    let mut descent = PvDescent::start(pos, 10);
    expect_fetch(descent.next(Vec::new()));
    let err = descent.next(vec![Fetched::Value(vec![1, 2, 3])]).unwrap_err();
    assert_eq!(err, Error::MalformedBlob);
}

#[test]
fn reply_protocol_lengths() {
    // The engine always expects exactly as many replies as keys it asked
    // for, and nothing once done.
    let pos = parse_fen(STARTPOS.as_bytes()).expect("legal");
    let mut descent = PvDescent::start(pos, 10);
    assert_eq!(descent.expected_replies(), 0);
    let keys = expect_fetch(descent.next(Vec::new()));
    assert_eq!(descent.expected_replies(), keys.len());
    let mut root = record(40, 22, -50);
    root.extend(record(39, 21, -50));
    let keys = expect_fetch(descent.next(vec![Fetched::Value(root)]));
    assert_eq!(descent.expected_replies(), keys.len());
    assert_eq!(keys.len(), 2);
}

#[test]
fn promotion_letters_round_trip() {
    let roles = [
        None,
        Some(PromotionRole::Queen),
        Some(PromotionRole::Rook),
        Some(PromotionRole::Bishop),
        Some(PromotionRole::Knight),
    ];
    for role in roles {
        assert_eq!(promotion_of_char(promotion_char(role)), role);
    }
    assert_eq!(promotion_char(Some(PromotionRole::Queen)), b'q');
}

#[test]
fn descent_ends_on_moveless_value() {
    // A sentinel-only blob decodes to zero moves: the line simply ends.
    let pos = parse_fen(STARTPOS.as_bytes()).expect("legal");
    let mut descent = PvDescent::start(pos, 10);
    expect_fetch(descent.next(Vec::new()));
    expect_done(descent.next(vec![Fetched::Value(vec![0, 0, 5, 0])]));
    assert_eq!(descent.into_line().len(), 0);
}

#[test]
fn multi_pv_rejects_malformed_root() {
    let pos = parse_fen(STARTPOS.as_bytes()).expect("legal");
    let mut root = MultiPvRoot::start(pos, 1);
    expect_root_fetch(&mut root, Vec::new());
    let err = root.next(vec![Fetched::Value(vec![9, 9])]).unwrap_err();
    assert_eq!(err, Error::MalformedBlob);
}

#[test]
fn multi_pv_bounds() {
    assert!(validate_multi_pv(1).is_ok());
    assert!(validate_multi_pv(5).is_ok());
    assert_eq!(
        validate_multi_pv(0).unwrap_err(),
        Error::MultiPvRange { n: 0 }
    );
    assert_eq!(
        validate_multi_pv(6).unwrap_err(),
        Error::MultiPvRange { n: 6 }
    );
}

#[test]
fn multi_pv_root_not_found() {
    let pos = parse_fen(STARTPOS.as_bytes()).expect("legal");
    let mut root = MultiPvRoot::start(pos, 2);
    match root.next(Vec::new()).expect("ok") {
        RootStep::Fetch(keys) => assert_eq!(keys.len(), 1),
        _ => panic!("expected the root fetch"),
    }
    match root.next(vec![Fetched::Missing]).expect("ok") {
        RootStep::NotFound => {}
        _ => panic!("expected not found"),
    }
}

#[test]
fn multi_pv_too_few_stored_moves() {
    // One stored move, two variations requested, and the start position
    // has twenty legal moves: the request cannot be satisfied.
    let pos = parse_fen(STARTPOS.as_bytes()).expect("legal");
    let mut root = MultiPvRoot::start(pos, 2);
    expect_root_fetch(&mut root, Vec::new());
    match root
        .next(vec![Fetched::Value(record(40, 22, -50))])
        .expect("ok")
    {
        RootStep::NotFound => {}
        _ => panic!("expected not found"),
    }
}

fn expect_root_fetch(root: &mut MultiPvRoot, reply: Vec<Fetched>) -> Vec<Vec<u8>> {
    match root.next(reply).expect("ok") {
        RootStep::Fetch(keys) => keys,
        _ => panic!("expected a fetch"),
    }
}

#[test]
fn multi_pv_ranks_and_truncates() {
    // Three stored moves: e2e4 at 60, d2d4 and g1f3 tied at 50. With two
    // variations requested, the prefix keeps all three; the children give
    // d2d4 five good replies and g1f3 two, so g1f3 ranks before d2d4 and
    // the two seeds are e2e4 then g1f3.
    let pos = parse_fen(STARTPOS.as_bytes()).expect("legal");
    let mut root = MultiPvRoot::start(pos, 2);
    expect_root_fetch(&mut root, Vec::new());
    let mut blob = record(40, 22, -60); // e2e4, decoded 60
    blob.extend(record(39, 21, -50)); // d2d4, decoded 50
    blob.extend(record(32, 15, -50)); // g1f3, decoded 50
    let keys = expect_root_fetch(&mut root, vec![Fetched::Value(blob)]);
    assert_eq!(keys.len(), 3);
    let replies = vec![
        Fetched::Missing,                      // after e2e4
        Fetched::Value(child_blob(5, 0)),      // after d2d4
        Fetched::Value(child_blob(2, 3)),      // after g1f3
    ];
    let seeds = match root.next(replies).expect("ok") {
        RootStep::Seeds(seeds) => seeds,
        _ => panic!("expected seeds"),
    };
    assert_eq!(seeds.len(), 2);
    assert_eq!(uci_ascii(&seeds[0].uci), b"e2e4".to_vec());
    assert_eq!(uci_ascii(&seeds[0].rendered), b"e2e4".to_vec());
    assert_eq!(seeds[0].score, 60);
    assert_eq!(seeds[0].good_replies, 0);
    assert_eq!(uci_ascii(&seeds[1].uci), b"g1f3".to_vec());
    assert_eq!(seeds[1].score, 50);
    assert_eq!(seeds[1].good_replies, 2);
}

#[test]
fn multi_pv_seed_feeds_descent() {
    // A seed's cached child moves serve the descent's first iteration: no
    // root fetch happens before the first move of the sub-line is chosen.
    let pos = parse_fen(STARTPOS.as_bytes()).expect("legal");
    let mut root = MultiPvRoot::start(pos, 1);
    expect_root_fetch(&mut root, Vec::new());
    let blob = record(40, 22, -60); // e2e4 only
    let keys = expect_root_fetch(&mut root, vec![Fetched::Value(blob)]);
    assert_eq!(keys.len(), 1);
    // The child after e2e4 holds a single reply e7e5; black to move, so
    // the child's canonical key may be mirrored, but the engine decodes
    // with the key's own orientation and the count is orientation-free.
    let child = record(40, 22, -40);
    let seeds = match root.next(vec![Fetched::Value(child)]).expect("ok") {
        RootStep::Seeds(seeds) => seeds,
        _ => panic!("expected seeds"),
    };
    assert_eq!(seeds.len(), 1);
    let seed = seeds.into_iter().next().unwrap();
    assert_eq!(uci_ascii(&seed.uci), b"e2e4".to_vec());
    let mut descent = seed.into_descent(10);
    // First call uses the cached moves: it must directly ask for the
    // position after the reply move, not for the seed position itself.
    let keys = expect_fetch(descent.next(Vec::new()));
    assert_eq!(keys.len(), 1);
    expect_done(descent.next(vec![Fetched::Missing]));
    let line = descent.into_line();
    assert_eq!(line.len(), 1);
}
