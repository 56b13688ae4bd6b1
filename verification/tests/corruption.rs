use fuzz_store::bit_stack::BitStack;
use fuzz_store::corruption::{changed_bits, corrupt};

fn stack(bits: &[bool]) -> BitStack {
    let mut result = BitStack::default();
    for &bit in bits {
        result.push(bit);
    }
    result
}

#[test]
fn last_pushed_bit_is_for_first_change() {
    // The bits 0, 2 and 7 of the first byte and bit 4 of the second one differ.
    let mut current = [0b0000_0001, 0b0001_0000];
    let target = [0b1000_0100, 0b0000_0000];
    let mut bits = stack(&[true, false, true, true, false]);
    corrupt(&mut bits, &mut current, &target);
    // Popped: false for bit 0, true for bit 2, true for bit 7, false for the second byte.
    assert_eq!(current, [0b1000_0101, 0b0001_0000]);
    assert_eq!(bits.len(), 1);
    assert_eq!(bits.pop(), Some(true));
}

#[test]
fn completed_operation() {
    let mut current = [0xff, 0xff, 0x12, 0x00];
    let target = [0x0f, 0xa5, 0x12, 0x80];
    let mut bits = stack(&[true; 9]);
    corrupt(&mut bits, &mut current, &target);
    assert_eq!(current, target);
    assert!(bits.is_empty());
}

#[test]
fn ineffective_operation() {
    let mut current = [0xff, 0xff, 0x12, 0x00];
    let target = [0x0f, 0xa5, 0x12, 0x80];
    let mut bits = stack(&[false; 9]);
    corrupt(&mut bits, &mut current, &target);
    assert_eq!(current, [0xff, 0xff, 0x12, 0x00]);
    assert!(bits.is_empty());
}

#[test]
fn nothing_to_change() {
    let mut current = [1, 2, 3];
    let mut bits = stack(&[true]);
    corrupt(&mut bits, &mut current, &[1, 2, 3]);
    assert_eq!(current, [1, 2, 3]);
    assert_eq!(bits.len(), 1);
}

#[test]
fn only_shared_bytes_are_changed() {
    let mut current = [0x00, 0xff];
    let mut bits = stack(&[true; 8]);
    corrupt(&mut bits, &mut current, &[0xff]);
    assert_eq!(current, [0xff, 0xff]);
    assert!(bits.is_empty());

    let mut current = [0x00];
    let mut bits = stack(&[true; 8]);
    corrupt(&mut bits, &mut current, &[0x01, 0xff]);
    assert_eq!(current, [0x01]);
    assert_eq!(bits.len(), 7);
}

#[test]
fn bits_to_change_are_counted() {
    assert_eq!(changed_bits(&[], &[1]), 0);
    assert_eq!(changed_bits(&[0b0000_0001, 0b0001_0000], &[0b1000_0100, 0]), 4);
    assert_eq!(changed_bits(&[0x00, 0xff], &[0xff]), 8);
    assert_eq!(changed_bits(&[1, 2, 3], &[1, 2, 3]), 0);
}
