use irq_executor::bits::{test_bit, MASK_WIDTH};

#[test]
fn test_bit_reads_single_bits() {
    assert!(test_bit(0b1000, 3));
    assert!(!test_bit(0b1000, 2));
    assert!(!test_bit(0, 0));
    assert!(test_bit(u32::MAX, 31));
    assert!(test_bit(0x8000_0000, 31));
    assert!(!test_bit(0x7fff_ffff, 31));
}

#[test]
fn test_bit_agrees_with_shifts() {
    let mask: u32 = 0xdead_beef;
    for index in 0..MASK_WIDTH {
        assert_eq!(test_bit(mask, index), (mask >> index) & 1 == 1);
    }
}
