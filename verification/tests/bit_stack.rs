use fuzz_store::bit_stack::BitStack;

#[test]
fn bit_stack_ok() {
    let mut bits = BitStack::default();

    assert_eq!(bits.pop(), None);

    bits.push(true);
    assert_eq!(bits.pop(), Some(true));
    assert_eq!(bits.pop(), None);

    bits.push(false);
    assert_eq!(bits.pop(), Some(false));
    assert_eq!(bits.pop(), None);

    bits.push(true);
    bits.push(false);
    assert_eq!(bits.pop(), Some(false));
    assert_eq!(bits.pop(), Some(true));
    assert_eq!(bits.pop(), None);

    bits.push(false);
    bits.push(true);
    assert_eq!(bits.pop(), Some(true));
    assert_eq!(bits.pop(), Some(false));
    assert_eq!(bits.pop(), None);

    let n = 27;
    for i in 0..n {
        assert_eq!(bits.len(), i);
        bits.push(true);
    }
    for i in (0..n).rev() {
        assert_eq!(bits.pop(), Some(true));
        assert_eq!(bits.len(), i);
    }
    assert_eq!(bits.pop(), None);
}

#[test]
fn push_overwrites_a_popped_bit() {
    let mut bits = BitStack::default();
    bits.push(true);
    bits.push(true);
    assert_eq!(bits.pop(), Some(true));
    bits.push(false);
    assert_eq!(bits.len(), 2);
    assert_eq!(bits.pop(), Some(false));
    assert_eq!(bits.pop(), Some(true));
    assert_eq!(bits.pop(), None);
}

#[test]
fn empty_stack() {
    let mut bits = BitStack::default();
    assert!(bits.is_empty());
    assert_eq!(bits.len(), 0);
    bits.push(false);
    assert!(!bits.is_empty());
    assert_eq!(bits.len(), 1);
    bits.pop();
    assert!(bits.is_empty());
}

#[test]
fn bits_come_back_in_reverse_order() {
    let mut bits = BitStack::default();
    let pattern: Vec<bool> = (0..40).map(|i| i % 3 == 0 || i % 7 == 2).collect();
    for &bit in &pattern {
        bits.push(bit);
    }
    for &bit in pattern.iter().rev() {
        assert_eq!(bits.pop(), Some(bit));
    }
    assert_eq!(bits.pop(), None);
}

#[test]
fn pop_undoes_push_within_a_byte() {
    let mut bits = BitStack::default();
    for i in 0..11 {
        bits.push(i % 2 == 0);
    }
    for &value in &[true, false, true, true, false] {
        bits.push(value);
        assert_eq!(bits.len(), 12);
        assert_eq!(bits.pop(), Some(value));
        assert_eq!(bits.len(), 11);
    }
    assert_eq!(bits.to_string(), "10101010101 (11 bits)");
}

#[test]
fn text_of_a_stack() {
    let mut bits = BitStack::default();
    assert_eq!(bits.to_string(), " (0 bits)");
    bits.push(true);
    bits.push(false);
    bits.push(false);
    assert_eq!(bits.to_string(), "001 (3 bits)");
    assert_eq!(bits.len(), 3);
    for _ in 0..7 {
        bits.push(true);
    }
    assert_eq!(bits.to_string(), "1111111001 (10 bits)");
}

#[test]
fn clone_of_a_stack() {
    let mut bits = BitStack::default();
    bits.push(true);
    bits.push(false);
    let mut copy = bits.clone();
    assert_eq!(copy.pop(), Some(false));
    assert_eq!(copy.pop(), Some(true));
    assert_eq!(copy.pop(), None);
    assert_eq!(bits.len(), 2);
}

#[test]
fn stack_is_compact() {
    let mut bits = BitStack::default();
    assert_eq!(format!("{:?}", bits), "BitStack { data: [], len: 0 }");
    for _ in 0..8 {
        bits.push(true);
    }
    assert_eq!(format!("{:?}", bits), "BitStack { data: [255], len: 0 }");
    bits.push(true);
    assert_eq!(format!("{:?}", bits), "BitStack { data: [255, 1], len: 1 }");
    bits.pop();
    assert_eq!(format!("{:?}", bits), "BitStack { data: [255], len: 0 }");
    bits.pop();
    assert_eq!(format!("{:?}", bits), "BitStack { data: [127], len: 7 }");
    for _ in 0..7 {
        bits.pop();
    }
    assert_eq!(bits.pop(), None);
    assert_eq!(format!("{:?}", bits), "BitStack { data: [], len: 0 }");
}
