use analytic_engine::bitset::BitSet;

#[test]
fn test_set_op() {
    let mut bit_set = BitSet::new(50);

    assert!(bit_set.set(1));
    assert!(bit_set.is_set(1).unwrap());

    assert!(bit_set.set(20));
    assert!(bit_set.is_set(20).unwrap());
    assert!(bit_set.set(49));
    assert!(bit_set.is_set(49).unwrap());

    assert!(!bit_set.set(100));
    assert!(bit_set.is_set(100).is_none());

    assert_eq!(
        bit_set.into_bytes(),
        vec![
            0b00000010, 0b00000000, 0b00010000, 0b000000000, 0b00000000, 0b00000000, 0b00000010
        ]
    );
}

#[test]
fn test_try_from_raw() {
    let raw_bytes: Vec<u8> = vec![0b11111111, 0b11110000, 0b00001111, 0b00001100, 0b00001001];
    assert!(BitSet::try_from_raw(raw_bytes.clone(), 50).is_none());
    assert!(BitSet::try_from_raw(raw_bytes.clone(), 40).is_some());
    assert!(BitSet::try_from_raw(raw_bytes, 1).is_some());
}

#[test]
fn test_unset_and_all_set() {
    let mut bits = BitSet::all_set(9);
    assert!(bits.is_set(8).unwrap());
    assert!(bits.unset(8));
    assert!(!bits.is_set(8).unwrap());
    assert!(bits.is_set(7).unwrap());
    assert!(!bits.unset(9));
}
