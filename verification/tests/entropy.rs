use fuzz_store::decimal::decimal;
use fuzz_store::entropy::Entropy;

#[test]
fn bits_are_read_from_the_least_significant() {
    let mut entropy = Entropy::new(&[0b1000_0101, 0b0000_0001]);
    let expected = [true, false, true, false, false, false, false, true, true, false];
    for &bit in &expected {
        assert!(!entropy.is_empty());
        assert_eq!(entropy.read_bit(), bit);
    }
    for _ in 0..6 {
        assert!(!entropy.is_empty());
        assert!(!entropy.read_bit());
    }
    assert!(entropy.is_empty());
    assert!(!entropy.read_bit());
    assert!(entropy.is_empty());
}

#[test]
fn numbers_are_read_across_bytes() {
    let mut entropy = Entropy::new(&[0xab, 0xcd, 0xef]);
    assert_eq!(entropy.read_bits(4), 0xb);
    assert_eq!(entropy.read_bits(12), 0xcda);
    assert_eq!(entropy.read_bits(0), 0);
    assert_eq!(entropy.read_bits(16), 0xef);
    assert!(entropy.is_empty());
}

#[test]
fn widest_number() {
    let mut entropy = Entropy::new(&[0xff; 8]);
    assert_eq!(entropy.read_bits(64), usize::MAX);
    assert_eq!(entropy.read_bits(64), 0);
}

#[test]
fn slices_are_padded_with_zeros() {
    let mut entropy = Entropy::new(&[1, 2, 3]);
    assert_eq!(entropy.read_byte(), 1);
    assert_eq!(entropy.read_slice(4), vec![2, 3, 0, 0]);
    assert!(entropy.is_empty());
}

#[test]
fn ranges_use_the_least_entropy() {
    // A range of one number takes no entropy.
    let mut entropy = Entropy::new(&[0xff]);
    assert_eq!(entropy.read_range(7, 7), 7);
    // Two bits select one of three numbers: 3 wraps to 0.
    assert_eq!(entropy.read_range(10, 12), 10);
    // Three bits select one of eight numbers.
    assert_eq!(entropy.read_range(5, 12), 12);
    // Three bits are left.
    assert_eq!(entropy.read_range(0, 7), 7);
    assert!(entropy.is_empty());
    assert_eq!(entropy.read_range(3, 64), 3);
}

#[test]
fn range_of_all_numbers() {
    let mut entropy = Entropy::new(&[0xfe, 0xff, 0xff, 0xff, 0xff, 0xff, 0xff, 0xff]);
    assert_eq!(entropy.read_range(0, usize::MAX), usize::MAX - 1);
    assert!(entropy.is_empty());
}

#[test]
fn each_number_of_a_range_is_selected() {
    for number in 0..=4096u16 {
        let data = number.to_le_bytes();
        let mut entropy = Entropy::new(&data);
        assert_eq!(entropy.read_range(0, 4096), number as usize);
        // 13 bits were read.
        assert_eq!(entropy.read_bits(3), 0);
        assert!(entropy.is_empty());
    }
}

#[test]
fn consumed_entropy() {
    let mut entropy = Entropy::new(&[0xff; 10]);
    entropy.read_bit();
    entropy.consume_all();
    assert!(entropy.is_empty());
    assert!(!entropy.read_bit());
    assert_eq!(entropy.read_bits(20), 0);
    assert_eq!(entropy.read_range(3, 64), 3);
}

#[test]
fn no_entropy() {
    let entropy = Entropy::new(&[]);
    assert!(entropy.is_empty());
}

#[test]
fn decimal_texts() {
    assert_eq!(decimal(0), "0");
    assert_eq!(decimal(9), "9");
    assert_eq!(decimal(10), "10");
    assert_eq!(decimal(1234567890), "1234567890");
    assert_eq!(decimal(usize::MAX), format!("{}", usize::MAX));
}
