use lila_cloudeval::nibbles::Nibbles;

#[test]
fn push_nibbles_pack_high_first() {
    let mut n = Nibbles::new();
    assert!(n.is_empty());
    assert_eq!(n.len(), 0);
    n.push_nibble(0x6);
    assert_eq!(n.len(), 1);
    assert_eq!(n.as_bytes(), &[0x60]);
    n.push_nibble(0x8);
    assert_eq!(n.len(), 2);
    assert_eq!(n.as_bytes(), &[0x68]);
    n.push_nibble(0xf);
    assert_eq!(n.len(), 3);
    assert_eq!(n.as_bytes(), &[0x68, 0xf0]);
}

#[test]
fn push_byte_splits_when_half_filled() {
    let mut n = Nibbles::new();
    n.push_byte(0xab);
    assert_eq!(n.as_bytes(), &[0xab]);
    n.push_nibble(0xc);
    n.push_byte(0xde);
    assert_eq!(n.as_bytes(), &[0xab, 0xcd, 0xe0]);
    assert_eq!(n.len(), 5);
}

#[test]
fn clear_resets() {
    let mut n = Nibbles::with_capacity(8);
    n.push_byte(0x12);
    n.clear();
    assert!(n.is_empty());
    assert_eq!(n.len(), 0);
    n.push_nibble(0x3);
    assert_eq!(n.into_bytes(), vec![0x30]);
}

#[test]
fn nibble_at_reads_back() {
    let mut n = Nibbles::new();
    n.push_byte(0x12);
    n.push_nibble(0x3);
    assert_eq!(n.nibble_at(0), 1);
    assert_eq!(n.nibble_at(1), 2);
    assert_eq!(n.nibble_at(2), 3);
}
