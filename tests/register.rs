use bit_register::{Bits, Uint};

#[test]
fn new_register_is_empty() {
    let bits: Bits<u16> = Bits::new();
    assert_eq!(bits.get_value(), 0);
    assert_eq!(bits.get_all_bits(), &vec![false; 16]);
    for i in 0..16u8 {
        assert!(!bits.is_bit_on(i));
    }
}

#[test]
fn widths_match_the_representation() {
    assert_eq!(<u8 as Uint>::in_memory_size(), 8);
    assert_eq!(<u16 as Uint>::in_memory_size(), 16);
    assert_eq!(<u32 as Uint>::in_memory_size(), 32);
    assert_eq!(<u64 as Uint>::in_memory_size(), 64);
    assert_eq!(<u128 as Uint>::in_memory_size(), 128);
    assert_eq!(Bits::<u8>::new().get_all_bits().len(), 8);
    assert_eq!(Bits::<u128>::new().get_all_bits().len(), 128);
}

#[test]
fn set_bit_in_range_turns_bit_on_for_every_width() {
    let mut a: Bits<u8> = Bits::new();
    assert!(a.set_bit(7));
    assert!(a.is_bit_on(7));
    assert_eq!(a.get_value(), 0x80);

    let mut b: Bits<u16> = Bits::new();
    assert!(b.set_bit(9));
    assert!(b.is_bit_on(9));
    assert_eq!(b.get_value(), 0x200);

    let mut c: Bits<u32> = Bits::new();
    assert!(c.set_bit(31));
    assert_eq!(c.get_value(), 0x8000_0000);

    let mut d: Bits<u64> = Bits::new();
    assert!(d.set_bit(40));
    assert_eq!(d.get_value(), 1u64 << 40);
    assert_eq!(d.get_all_bits()[40], true);
}

#[test]
fn set_bit_past_width_changes_nothing() {
    let mut bits: Bits<u16> = Bits::new();
    bits.set_bit(3);
    assert!(!bits.set_bit(16));
    assert!(!bits.set_bit(255));
    assert_eq!(bits.get_value(), 8);
    assert!(!bits.is_bit_on(16));
    assert!(!bits.is_bit_on(255));
}

#[test]
fn set_bit_twice_is_set_bit_once() {
    let mut once: Bits<u32> = Bits::new();
    once.set_bit(12);
    let mut twice: Bits<u32> = Bits::new();
    twice.set_bit(12);
    twice.set_bit(12);
    assert_eq!(once.get_value(), twice.get_value());
    assert_eq!(once.get_all_bits(), twice.get_all_bits());
}

#[test]
fn set_then_clear_restores_value() {
    let mut bits: Bits<u8> = Bits::new();
    bits.set_bits(&vec![0, 6]);
    let before = bits.get_value();
    assert!(bits.set_bit(4));
    assert_eq!(bits.get_value(), before | 0x10);
    assert!(bits.clear_bit(4));
    assert_eq!(bits.get_value(), before);
    assert!(!bits.is_bit_on(4));
    assert!(bits.is_bit_on(0));
    assert!(bits.is_bit_on(6));
}

#[test]
fn clear_bit_of_a_bit_that_was_on_before_set() {
    let mut bits: Bits<u8> = Bits::new();
    bits.set_bit(2);
    bits.set_bit(2);
    bits.clear_bit(2);
    assert_eq!(bits.get_value(), 0);
}

#[test]
fn set_all_flags_gives_largest_value() {
    let mut bits: Bits<u8> = Bits::new();
    bits.set_all_flags();
    assert_eq!(bits.get_value(), 255);
    for i in 0..8u8 {
        assert!(bits.is_bit_on(i));
    }
    let mut wide: Bits<u16> = Bits::new();
    wide.set_all_flags();
    assert_eq!(wide.get_value(), 65535);
}

#[test]
fn set_bits_scenario_value() {
    let mut bits: Bits<u8> = Bits::new();
    let res = bits.set_bits(&vec![1, 3, 5, 2, 65]);
    assert_eq!(res, &vec![false, true, true, true, false, true, false, false]);
    assert_eq!(bits.get_value(), 46);
}

#[test]
fn set_bit_past_width_on_fresh_register() {
    let mut bits: Bits<u8> = Bits::new();
    assert!(!bits.set_bit(10));
    assert!(!bits.is_bit_on(10));
    assert_eq!(bits.get_value(), 0);
}

#[test]
fn highest_bit_of_widest_register() {
    let mut bits: Bits<u128> = Bits::new();
    assert!(bits.set_bit(127));
    assert!(bits.is_bit_on(127));
    assert_eq!(bits.get_value(), 1u128 << 127);
    for i in 0..127u8 {
        assert!(!bits.is_bit_on(i));
    }
}

#[test]
fn clear_all_bits_resets_every_width() {
    let mut a: Bits<u8> = Bits::new();
    a.set_all_flags();
    a.clear_all_bits();
    assert_eq!(a.get_value(), 0);

    let mut b: Bits<u64> = Bits::new();
    b.set_bits(&vec![0, 17, 63]);
    b.clear_all_bits();
    assert_eq!(b.get_value(), 0);

    let mut c: Bits<u128> = Bits::new();
    c.set_all_flags();
    c.clear_all_bits();
    assert_eq!(c.get_value(), 0);
}

#[test]
fn whole_value_changes_keep_the_record() {
    let mut bits: Bits<u8> = Bits::new();
    bits.set_bits(&vec![1, 4]);
    bits.clear_all_bits();
    assert_eq!(bits.get_all_bits(), &vec![false, true, false, false, true, false, false, false]);
    assert!(!bits.is_bit_on(1));
    bits.set_all_flags();
    assert_eq!(bits.get_all_bits(), &vec![false, true, false, false, true, false, false, false]);
}

#[test]
fn are_bits_on_accumulates_hits() {
    let mut bits: Bits<u8> = Bits::new();
    bits.set_bits(&vec![2, 5]);
    bits.clear_all_bits();
    bits.set_all_flags();
    bits.clear_bit(6);
    let res = bits.are_bits_on(&vec![0, 6, 0, 200]);
    assert_eq!(res, &vec![true, false, true, false, false, true, false, false]);
    assert_eq!(bits.get_value(), 0b1011_1111);
}

#[test]
fn are_bits_on_marks_nothing_when_all_off() {
    let mut bits: Bits<u32> = Bits::new();
    let res = bits.are_bits_on(&vec![0, 1, 31, 32]);
    assert_eq!(res, &vec![false; 32]);
}

#[test]
fn clear_bits_with_duplicates_and_out_of_range() {
    let mut bits: Bits<u16> = Bits::new();
    bits.set_all_flags();
    let res = bits.clear_bits(&vec![3, 3, 15, 16, 99]).clone();
    assert_eq!(res, vec![false; 16]);
    assert_eq!(bits.get_value(), 0xffff & !(1 << 3) & !(1 << 15));
}

#[test]
fn set_bits_empty_list_changes_nothing() {
    let mut bits: Bits<u64> = Bits::new();
    bits.set_bit(5);
    let res = bits.set_bits(&vec![]).clone();
    assert_eq!(res.iter().filter(|b| **b).count(), 1);
    assert_eq!(bits.get_value(), 32);
}

#[test]
fn uint_operations() {
    assert_eq!(<u8 as Uint>::convert(3), 8);
    assert_eq!(<u16 as Uint>::convert(15), 0x8000);
    assert_eq!(<u128 as Uint>::convert(100), 1u128 << 100);
    assert_eq!(<u32 as Uint>::max_value(), u32::MAX);
    assert_eq!(<u64 as Uint>::from_u8(7), 7);
    assert_eq!(Uint::bit_and(0b1100u8, 0b1010u8), 0b1000);
    assert_eq!(Uint::bit_or(0b1100u16, 0b1010u16), 0b1110);
    assert_eq!(Uint::bit_not(0x0fu8), 0xf0);
    assert!(Uint::gt(5u64, 4u64));
    assert!(!Uint::gt(4u32, 4u32));
}

#[test]
fn default_is_a_fresh_register() {
    let bits: Bits<u32> = Bits::default();
    assert_eq!(bits.get_value(), 0);
    assert_eq!(bits.get_all_bits(), &vec![false; 32]);
}
