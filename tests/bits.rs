use bit_register::bit_manipulation;
use bit_register::bit_manipulation::Bits;

#[test]
fn set_bit() {
    let mut bits: bit_manipulation::Bits<u32> = bit_manipulation::Bits::new();
    let mut bit = 0;

    bits.set_bit(bit);
    assert!(bits.is_bit_on(bit));

    bit = 6;
    bits.set_bit(bit);
    assert!(bits.is_bit_on(bit));

    bit = 15;
    bits.set_bit(bit);
    assert!(bits.is_bit_on(bit));

    let mut bits: bit_manipulation::Bits<u64> = bit_manipulation::Bits::new();

    bit = 63;
    bits.set_bit(bit);
    assert!(bits.is_bit_on(bit));

    bit = 66;
    bits.set_bit(bit);
    assert!(!bits.is_bit_on(bit));

    let mut bits: bit_manipulation::Bits<u128> = bit_manipulation::Bits::new();

    bit = 0;
    bits.set_bit(bit);
    assert!(bits.is_bit_on(bit));

    bit = 127;
    bits.set_bit(bit);
    assert!(bits.is_bit_on(bit));
}

#[test]
fn set_bits() {
    let mut bits: Bits<u8> = bit_manipulation::Bits::new();
    let arr = vec![1, 3, 5, 2, 65];
    let res = bits.set_bits(&arr);

    assert_eq!(
        res,
        &vec![false, true, true, true, false, true, false, false]
    );

    bits.clear_all_bits();

    assert_eq!(bits.get_value(), 0);
}

#[test]
fn clear_bit() {
    let mut bits: Bits<u8> = bit_manipulation::Bits::new();

    let set_success = bits.set_bit(10);

    assert!(!bits.is_bit_on(10));

    assert!(!set_success);

    let clear_success = bits.clear_bit(10);

    assert!(!bits.is_bit_on(10));

    assert!(!clear_success);

    assert_eq!(bits.get_value(), 0);
}

#[test]
fn clear_bits() {
    let mut bits: Bits<u8> = bit_manipulation::Bits::new();
    let arr = vec![1, 3, 5, 2, 65];
    let mut activated_bits = bits.set_bits(&arr);

    assert_eq!(
        activated_bits,
        &vec![false, true, true, true, false, true, false, false]
    );

    activated_bits = bits.clear_bits(&arr);

    assert_eq!(
        activated_bits,
        &vec![false, false, false, false, false, false, false, false]
    );

    assert_eq!(bits.get_value(), 0);
}

#[test]
fn test_max_size() {
    let mut bits: Bits<u8> = bit_manipulation::Bits::new();
    bits.set_all_flags();
    assert_eq!(u8::MAX, bits.get_value());
    let mut bits: Bits<u16> = bit_manipulation::Bits::new();
    bits.set_all_flags();
    assert_eq!(u16::MAX, bits.get_value());
    let mut bits: Bits<u32> = bit_manipulation::Bits::new();
    bits.set_all_flags();
    assert_eq!(u32::MAX, bits.get_value());
    let mut bits: Bits<u64> = bit_manipulation::Bits::new();
    bits.set_all_flags();
    assert_eq!(u64::MAX, bits.get_value());
    let mut bits: Bits<u128> = bit_manipulation::Bits::new();
    bits.set_all_flags();
    assert_eq!(u128::MAX, bits.get_value());
}
