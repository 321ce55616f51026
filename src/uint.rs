//! The unsigned integer types a register can be built on, with the few
//! operations the register needs, each stated over the bits of the value.

use vstd::prelude::*;

verus! {

use crate::bit_math::bits_of;
use vstd::arithmetic::power2::{lemma2_to64, lemma_pow2_adds, pow2};
use vstd::bits::{
    lemma_u128_shr_is_div,
    lemma_u16_shr_is_div,
    lemma_u32_shr_is_div,
    lemma_u64_shr_is_div,
    lemma_u8_shr_is_div,
};

/// An unsigned integer of a fixed number of bits.
///
/// Each operation is specified through `to_nat` and `bits_of`, so that code
/// generic over the width can reason about single bits.
pub trait Uint: Copy + Sized {
    /// The number of bits of the representation.
    spec fn width() -> nat;

    /// The value as a natural number.
    spec fn to_nat(self) -> nat;

    /// Every value fits in `width()` bits.
    proof fn lemma_bounds(x: Self)
        ensures
            x.to_nat() < pow2(Self::width()),
    ;

    /// Values with the same number are the same value.
    proof fn lemma_to_nat_injective(a: Self, b: Self)
        requires
            a.to_nat() == b.to_nat(),
        ensures
            a == b,
    ;

    /// The value `v`.
    fn from_u8(v: u8) -> (r: Self)
        ensures
            r.to_nat() == v,
    ;

    /// The largest value: every bit set.
    fn max_value() -> (r: Self)
        ensures
            r.to_nat() == pow2(Self::width()) - 1,
            bits_of(r.to_nat(), Self::width()) == Seq::new(Self::width(), |i: int| true),
    ;

    /// The number of bits of the representation.
    fn in_memory_size() -> (r: u8)
        ensures
            r == Self::width(),
    ;

    /// The value whose only set bit is `bit`.
    fn convert(bit: u8) -> (r: Self)
        requires
            bit < Self::width(),
        ensures
            bits_of(r.to_nat(), Self::width()) == Seq::new(Self::width(), |i: int| i == bit),
    ;

    /// Bitwise and.
    fn bit_and(self, other: Self) -> (r: Self)
        ensures
            bits_of(r.to_nat(), Self::width()) == Seq::new(
                Self::width(),
                |i: int|
                    bits_of(self.to_nat(), Self::width())[i] && bits_of(
                        other.to_nat(),
                        Self::width(),
                    )[i],
            ),
    ;

    /// Bitwise or.
    fn bit_or(self, other: Self) -> (r: Self)
        ensures
            bits_of(r.to_nat(), Self::width()) == Seq::new(
                Self::width(),
                |i: int|
                    bits_of(self.to_nat(), Self::width())[i] || bits_of(
                        other.to_nat(),
                        Self::width(),
                    )[i],
            ),
    ;

    /// Bitwise complement.
    fn bit_not(self) -> (r: Self)
        ensures
            bits_of(r.to_nat(), Self::width()) == Seq::new(
                Self::width(),
                |i: int| !bits_of(self.to_nat(), Self::width())[i],
            ),
    ;

    /// Whether `self` is greater than `other`.
    fn gt(self, other: Self) -> (r: bool)
        ensures
            r == (self.to_nat() > other.to_nat()),
    ;
}

/// Bit `i` of `x`, read with a shift and a mask.
proof fn lemma_u8_bit(x: u8, i: nat)
    requires
        i < 8,
    ensures
        bits_of(x as nat, 8)[i as int] == ((x >> (i as u8)) & 1u8 == 1u8),
{
    lemma_u8_shr_is_div(x, i as u8);
    let y = x >> (i as u8);
    assert((y & 1u8 == 1u8) == (y % 2 == 1)) by (bit_vector);
}

/// The bitwise operations, one bit at a time.
proof fn lemma_u8_ops(x: u8, y: u8, s: u8, k: u8)
    by (bit_vector)
    requires
        s < 8,
        k < 8,
    ensures
        (((x & y) >> s) & 1u8 == 1u8) == (((x >> s) & 1u8 == 1u8) && ((y >> s) & 1u8 == 1u8)),
        (((x | y) >> s) & 1u8 == 1u8) == (((x >> s) & 1u8 == 1u8) || ((y >> s) & 1u8 == 1u8)),
        (((!x) >> s) & 1u8 == 1u8) == !((x >> s) & 1u8 == 1u8),
        (((1u8 << k) >> s) & 1u8 == 1u8) == (s == k),
        ((u8::MAX >> s) & 1u8 == 1u8),
{
}

impl Uint for u8 {
    open spec fn width() -> nat {
        8
    }

    open spec fn to_nat(self) -> nat {
        self as nat
    }

    proof fn lemma_bounds(x: u8) {
        lemma2_to64();
    }

    proof fn lemma_to_nat_injective(a: u8, b: u8) {
    }

    fn from_u8(v: u8) -> (r: u8) {
        v
    }

    fn max_value() -> (r: u8) {
        proof {
            lemma2_to64();
            assert forall|i: int| 0 <= i < 8 implies #[trigger] bits_of(u8::MAX as nat, 8)[i] by {
                lemma_u8_bit(u8::MAX, i as nat);
                lemma_u8_ops(0, 0, i as u8, 0);
            }
            assert(bits_of(u8::MAX as nat, 8) =~= Seq::new(8, |i: int| true));
        }
        u8::MAX
    }

    fn in_memory_size() -> (r: u8) {
        8
    }

    fn convert(bit: u8) -> (r: u8) {
        let r = 1u8 << bit;
        proof {
            assert forall|i: int| 0 <= i < 8 implies #[trigger] bits_of(r as nat, 8)[i] == (i == bit) by {
                lemma_u8_bit(r, i as nat);
                lemma_u8_ops(0, 0, i as u8, bit);
            }
            assert(bits_of(r as nat, 8) =~= Seq::new(8, |i: int| i == bit));
        }
        r
    }

    fn bit_and(self, other: u8) -> (r: u8) {
        let r = self & other;
        proof {
            assert forall|i: int| 0 <= i < 8 implies #[trigger] bits_of(r as nat, 8)[i] == (bits_of(
                self as nat,
                8,
            )[i] && bits_of(other as nat, 8)[i]) by {
                lemma_u8_bit(self, i as nat);
                lemma_u8_bit(other, i as nat);
                lemma_u8_bit(r, i as nat);
                lemma_u8_ops(self, other, i as u8, 0);
            }
            assert(bits_of(r as nat, 8) =~= Seq::new(
                8,
                |i: int| bits_of(self as nat, 8)[i] && bits_of(other as nat, 8)[i],
            ));
        }
        r
    }

    fn bit_or(self, other: u8) -> (r: u8) {
        let r = self | other;
        proof {
            assert forall|i: int| 0 <= i < 8 implies #[trigger] bits_of(r as nat, 8)[i] == (bits_of(
                self as nat,
                8,
            )[i] || bits_of(other as nat, 8)[i]) by {
                lemma_u8_bit(self, i as nat);
                lemma_u8_bit(other, i as nat);
                lemma_u8_bit(r, i as nat);
                lemma_u8_ops(self, other, i as u8, 0);
            }
            assert(bits_of(r as nat, 8) =~= Seq::new(
                8,
                |i: int| bits_of(self as nat, 8)[i] || bits_of(other as nat, 8)[i],
            ));
        }
        r
    }

    fn bit_not(self) -> (r: u8) {
        let r = !self;
        proof {
            assert forall|i: int| 0 <= i < 8 implies #[trigger] bits_of(r as nat, 8)[i] == !bits_of(
                self as nat,
                8,
            )[i] by {
                lemma_u8_bit(self, i as nat);
                lemma_u8_bit(r, i as nat);
                lemma_u8_ops(self, 0, i as u8, 0);
            }
            assert(bits_of(r as nat, 8) =~= Seq::new(8, |i: int| !bits_of(self as nat, 8)[i]));
        }
        r
    }

    fn gt(self, other: u8) -> (r: bool) {
        self > other
    }
}

/// Bit `i` of `x`, read with a shift and a mask.
proof fn lemma_u16_bit(x: u16, i: nat)
    requires
        i < 16,
    ensures
        bits_of(x as nat, 16)[i as int] == ((x >> (i as u16)) & 1u16 == 1u16),
{
    lemma_u16_shr_is_div(x, i as u16);
    let y = x >> (i as u16);
    assert((y & 1u16 == 1u16) == (y % 2 == 1)) by (bit_vector);
}

/// The bitwise operations, one bit at a time.
proof fn lemma_u16_ops(x: u16, y: u16, s: u16, k: u16)
    by (bit_vector)
    requires
        s < 16,
        k < 16,
    ensures
        (((x & y) >> s) & 1u16 == 1u16) == (((x >> s) & 1u16 == 1u16) && ((y >> s) & 1u16 == 1u16)),
        (((x | y) >> s) & 1u16 == 1u16) == (((x >> s) & 1u16 == 1u16) || ((y >> s) & 1u16 == 1u16)),
        (((!x) >> s) & 1u16 == 1u16) == !((x >> s) & 1u16 == 1u16),
        (((1u16 << k) >> s) & 1u16 == 1u16) == (s == k),
        ((u16::MAX >> s) & 1u16 == 1u16),
{
}

impl Uint for u16 {
    open spec fn width() -> nat {
        16
    }

    open spec fn to_nat(self) -> nat {
        self as nat
    }

    proof fn lemma_bounds(x: u16) {
        lemma2_to64();
    }

    proof fn lemma_to_nat_injective(a: u16, b: u16) {
    }

    fn from_u8(v: u8) -> (r: u16) {
        v as u16
    }

    fn max_value() -> (r: u16) {
        proof {
            lemma2_to64();
            assert forall|i: int| 0 <= i < 16 implies #[trigger] bits_of(u16::MAX as nat, 16)[i] by {
                lemma_u16_bit(u16::MAX, i as nat);
                lemma_u16_ops(0, 0, i as u16, 0);
            }
            assert(bits_of(u16::MAX as nat, 16) =~= Seq::new(16, |i: int| true));
        }
        u16::MAX
    }

    fn in_memory_size() -> (r: u8) {
        16
    }

    fn convert(bit: u8) -> (r: u16) {
        let r = 1u16 << (bit as u16);
        proof {
            assert forall|i: int| 0 <= i < 16 implies #[trigger] bits_of(r as nat, 16)[i] == (i == bit) by {
                lemma_u16_bit(r, i as nat);
                lemma_u16_ops(0, 0, i as u16, bit as u16);
            }
            assert(bits_of(r as nat, 16) =~= Seq::new(16, |i: int| i == bit));
        }
        r
    }

    fn bit_and(self, other: u16) -> (r: u16) {
        let r = self & other;
        proof {
            assert forall|i: int| 0 <= i < 16 implies #[trigger] bits_of(r as nat, 16)[i] == (bits_of(
                self as nat,
                16,
            )[i] && bits_of(other as nat, 16)[i]) by {
                lemma_u16_bit(self, i as nat);
                lemma_u16_bit(other, i as nat);
                lemma_u16_bit(r, i as nat);
                lemma_u16_ops(self, other, i as u16, 0);
            }
            assert(bits_of(r as nat, 16) =~= Seq::new(
                16,
                |i: int| bits_of(self as nat, 16)[i] && bits_of(other as nat, 16)[i],
            ));
        }
        r
    }

    fn bit_or(self, other: u16) -> (r: u16) {
        let r = self | other;
        proof {
            assert forall|i: int| 0 <= i < 16 implies #[trigger] bits_of(r as nat, 16)[i] == (bits_of(
                self as nat,
                16,
            )[i] || bits_of(other as nat, 16)[i]) by {
                lemma_u16_bit(self, i as nat);
                lemma_u16_bit(other, i as nat);
                lemma_u16_bit(r, i as nat);
                lemma_u16_ops(self, other, i as u16, 0);
            }
            assert(bits_of(r as nat, 16) =~= Seq::new(
                16,
                |i: int| bits_of(self as nat, 16)[i] || bits_of(other as nat, 16)[i],
            ));
        }
        r
    }

    fn bit_not(self) -> (r: u16) {
        let r = !self;
        proof {
            assert forall|i: int| 0 <= i < 16 implies #[trigger] bits_of(r as nat, 16)[i] == !bits_of(
                self as nat,
                16,
            )[i] by {
                lemma_u16_bit(self, i as nat);
                lemma_u16_bit(r, i as nat);
                lemma_u16_ops(self, 0, i as u16, 0);
            }
            assert(bits_of(r as nat, 16) =~= Seq::new(16, |i: int| !bits_of(self as nat, 16)[i]));
        }
        r
    }

    fn gt(self, other: u16) -> (r: bool) {
        self > other
    }
}

/// Bit `i` of `x`, read with a shift and a mask.
proof fn lemma_u32_bit(x: u32, i: nat)
    requires
        i < 32,
    ensures
        bits_of(x as nat, 32)[i as int] == ((x >> (i as u32)) & 1u32 == 1u32),
{
    lemma_u32_shr_is_div(x, i as u32);
    let y = x >> (i as u32);
    assert((y & 1u32 == 1u32) == (y % 2 == 1)) by (bit_vector);
}

/// The bitwise operations, one bit at a time.
proof fn lemma_u32_ops(x: u32, y: u32, s: u32, k: u32)
    by (bit_vector)
    requires
        s < 32,
        k < 32,
    ensures
        (((x & y) >> s) & 1u32 == 1u32) == (((x >> s) & 1u32 == 1u32) && ((y >> s) & 1u32 == 1u32)),
        (((x | y) >> s) & 1u32 == 1u32) == (((x >> s) & 1u32 == 1u32) || ((y >> s) & 1u32 == 1u32)),
        (((!x) >> s) & 1u32 == 1u32) == !((x >> s) & 1u32 == 1u32),
        (((1u32 << k) >> s) & 1u32 == 1u32) == (s == k),
        ((u32::MAX >> s) & 1u32 == 1u32),
{
}

impl Uint for u32 {
    open spec fn width() -> nat {
        32
    }

    open spec fn to_nat(self) -> nat {
        self as nat
    }

    proof fn lemma_bounds(x: u32) {
        lemma2_to64();
    }

    proof fn lemma_to_nat_injective(a: u32, b: u32) {
    }

    fn from_u8(v: u8) -> (r: u32) {
        v as u32
    }

    fn max_value() -> (r: u32) {
        proof {
            lemma2_to64();
            assert forall|i: int| 0 <= i < 32 implies #[trigger] bits_of(u32::MAX as nat, 32)[i] by {
                lemma_u32_bit(u32::MAX, i as nat);
                lemma_u32_ops(0, 0, i as u32, 0);
            }
            assert(bits_of(u32::MAX as nat, 32) =~= Seq::new(32, |i: int| true));
        }
        u32::MAX
    }

    fn in_memory_size() -> (r: u8) {
        32
    }

    fn convert(bit: u8) -> (r: u32) {
        let r = 1u32 << (bit as u32);
        proof {
            assert forall|i: int| 0 <= i < 32 implies #[trigger] bits_of(r as nat, 32)[i] == (i == bit) by {
                lemma_u32_bit(r, i as nat);
                lemma_u32_ops(0, 0, i as u32, bit as u32);
            }
            assert(bits_of(r as nat, 32) =~= Seq::new(32, |i: int| i == bit));
        }
        r
    }

    fn bit_and(self, other: u32) -> (r: u32) {
        let r = self & other;
        proof {
            assert forall|i: int| 0 <= i < 32 implies #[trigger] bits_of(r as nat, 32)[i] == (bits_of(
                self as nat,
                32,
            )[i] && bits_of(other as nat, 32)[i]) by {
                lemma_u32_bit(self, i as nat);
                lemma_u32_bit(other, i as nat);
                lemma_u32_bit(r, i as nat);
                lemma_u32_ops(self, other, i as u32, 0);
            }
            assert(bits_of(r as nat, 32) =~= Seq::new(
                32,
                |i: int| bits_of(self as nat, 32)[i] && bits_of(other as nat, 32)[i],
            ));
        }
        r
    }

    fn bit_or(self, other: u32) -> (r: u32) {
        let r = self | other;
        proof {
            assert forall|i: int| 0 <= i < 32 implies #[trigger] bits_of(r as nat, 32)[i] == (bits_of(
                self as nat,
                32,
            )[i] || bits_of(other as nat, 32)[i]) by {
                lemma_u32_bit(self, i as nat);
                lemma_u32_bit(other, i as nat);
                lemma_u32_bit(r, i as nat);
                lemma_u32_ops(self, other, i as u32, 0);
            }
            assert(bits_of(r as nat, 32) =~= Seq::new(
                32,
                |i: int| bits_of(self as nat, 32)[i] || bits_of(other as nat, 32)[i],
            ));
        }
        r
    }

    fn bit_not(self) -> (r: u32) {
        let r = !self;
        proof {
            assert forall|i: int| 0 <= i < 32 implies #[trigger] bits_of(r as nat, 32)[i] == !bits_of(
                self as nat,
                32,
            )[i] by {
                lemma_u32_bit(self, i as nat);
                lemma_u32_bit(r, i as nat);
                lemma_u32_ops(self, 0, i as u32, 0);
            }
            assert(bits_of(r as nat, 32) =~= Seq::new(32, |i: int| !bits_of(self as nat, 32)[i]));
        }
        r
    }

    fn gt(self, other: u32) -> (r: bool) {
        self > other
    }
}

/// Bit `i` of `x`, read with a shift and a mask.
proof fn lemma_u64_bit(x: u64, i: nat)
    requires
        i < 64,
    ensures
        bits_of(x as nat, 64)[i as int] == ((x >> (i as u64)) & 1u64 == 1u64),
{
    lemma_u64_shr_is_div(x, i as u64);
    let y = x >> (i as u64);
    assert((y & 1u64 == 1u64) == (y % 2 == 1)) by (bit_vector);
}

/// The bitwise operations, one bit at a time.
proof fn lemma_u64_ops(x: u64, y: u64, s: u64, k: u64)
    by (bit_vector)
    requires
        s < 64,
        k < 64,
    ensures
        (((x & y) >> s) & 1u64 == 1u64) == (((x >> s) & 1u64 == 1u64) && ((y >> s) & 1u64 == 1u64)),
        (((x | y) >> s) & 1u64 == 1u64) == (((x >> s) & 1u64 == 1u64) || ((y >> s) & 1u64 == 1u64)),
        (((!x) >> s) & 1u64 == 1u64) == !((x >> s) & 1u64 == 1u64),
        (((1u64 << k) >> s) & 1u64 == 1u64) == (s == k),
        ((u64::MAX >> s) & 1u64 == 1u64),
{
}

impl Uint for u64 {
    open spec fn width() -> nat {
        64
    }

    open spec fn to_nat(self) -> nat {
        self as nat
    }

    proof fn lemma_bounds(x: u64) {
        lemma2_to64();
    }

    proof fn lemma_to_nat_injective(a: u64, b: u64) {
    }

    fn from_u8(v: u8) -> (r: u64) {
        v as u64
    }

    fn max_value() -> (r: u64) {
        proof {
            lemma2_to64();
            assert forall|i: int| 0 <= i < 64 implies #[trigger] bits_of(u64::MAX as nat, 64)[i] by {
                lemma_u64_bit(u64::MAX, i as nat);
                lemma_u64_ops(0, 0, i as u64, 0);
            }
            assert(bits_of(u64::MAX as nat, 64) =~= Seq::new(64, |i: int| true));
        }
        u64::MAX
    }

    fn in_memory_size() -> (r: u8) {
        64
    }

    fn convert(bit: u8) -> (r: u64) {
        let r = 1u64 << (bit as u64);
        proof {
            assert forall|i: int| 0 <= i < 64 implies #[trigger] bits_of(r as nat, 64)[i] == (i == bit) by {
                lemma_u64_bit(r, i as nat);
                lemma_u64_ops(0, 0, i as u64, bit as u64);
            }
            assert(bits_of(r as nat, 64) =~= Seq::new(64, |i: int| i == bit));
        }
        r
    }

    fn bit_and(self, other: u64) -> (r: u64) {
        let r = self & other;
        proof {
            assert forall|i: int| 0 <= i < 64 implies #[trigger] bits_of(r as nat, 64)[i] == (bits_of(
                self as nat,
                64,
            )[i] && bits_of(other as nat, 64)[i]) by {
                lemma_u64_bit(self, i as nat);
                lemma_u64_bit(other, i as nat);
                lemma_u64_bit(r, i as nat);
                lemma_u64_ops(self, other, i as u64, 0);
            }
            assert(bits_of(r as nat, 64) =~= Seq::new(
                64,
                |i: int| bits_of(self as nat, 64)[i] && bits_of(other as nat, 64)[i],
            ));
        }
        r
    }

    fn bit_or(self, other: u64) -> (r: u64) {
        let r = self | other;
        proof {
            assert forall|i: int| 0 <= i < 64 implies #[trigger] bits_of(r as nat, 64)[i] == (bits_of(
                self as nat,
                64,
            )[i] || bits_of(other as nat, 64)[i]) by {
                lemma_u64_bit(self, i as nat);
                lemma_u64_bit(other, i as nat);
                lemma_u64_bit(r, i as nat);
                lemma_u64_ops(self, other, i as u64, 0);
            }
            assert(bits_of(r as nat, 64) =~= Seq::new(
                64,
                |i: int| bits_of(self as nat, 64)[i] || bits_of(other as nat, 64)[i],
            ));
        }
        r
    }

    fn bit_not(self) -> (r: u64) {
        let r = !self;
        proof {
            assert forall|i: int| 0 <= i < 64 implies #[trigger] bits_of(r as nat, 64)[i] == !bits_of(
                self as nat,
                64,
            )[i] by {
                lemma_u64_bit(self, i as nat);
                lemma_u64_bit(r, i as nat);
                lemma_u64_ops(self, 0, i as u64, 0);
            }
            assert(bits_of(r as nat, 64) =~= Seq::new(64, |i: int| !bits_of(self as nat, 64)[i]));
        }
        r
    }

    fn gt(self, other: u64) -> (r: bool) {
        self > other
    }
}

/// Bit `i` of `x`, read with a shift and a mask.
proof fn lemma_u128_bit(x: u128, i: nat)
    requires
        i < 128,
    ensures
        bits_of(x as nat, 128)[i as int] == ((x >> (i as u128)) & 1u128 == 1u128),
{
    lemma_u128_shr_is_div(x, i as u128);
    let y = x >> (i as u128);
    assert((y & 1u128 == 1u128) == (y % 2 == 1)) by (bit_vector);
}

/// The bitwise operations, one bit at a time.
proof fn lemma_u128_ops(x: u128, y: u128, s: u128, k: u128)
    by (bit_vector)
    requires
        s < 128,
        k < 128,
    ensures
        (((x & y) >> s) & 1u128 == 1u128) == (((x >> s) & 1u128 == 1u128) && ((y >> s) & 1u128 == 1u128)),
        (((x | y) >> s) & 1u128 == 1u128) == (((x >> s) & 1u128 == 1u128) || ((y >> s) & 1u128 == 1u128)),
        (((!x) >> s) & 1u128 == 1u128) == !((x >> s) & 1u128 == 1u128),
        (((1u128 << k) >> s) & 1u128 == 1u128) == (s == k),
        ((u128::MAX >> s) & 1u128 == 1u128),
{
}

impl Uint for u128 {
    open spec fn width() -> nat {
        128
    }

    open spec fn to_nat(self) -> nat {
        self as nat
    }

    proof fn lemma_bounds(x: u128) {
        lemma2_to64();
        lemma_pow2_adds(64, 64);
    }

    proof fn lemma_to_nat_injective(a: u128, b: u128) {
    }

    fn from_u8(v: u8) -> (r: u128) {
        v as u128
    }

    fn max_value() -> (r: u128) {
        proof {
            lemma2_to64();
            lemma_pow2_adds(64, 64);
            assert forall|i: int| 0 <= i < 128 implies #[trigger] bits_of(u128::MAX as nat, 128)[i] by {
                lemma_u128_bit(u128::MAX, i as nat);
                lemma_u128_ops(0, 0, i as u128, 0);
            }
            assert(bits_of(u128::MAX as nat, 128) =~= Seq::new(128, |i: int| true));
        }
        u128::MAX
    }

    fn in_memory_size() -> (r: u8) {
        128
    }

    fn convert(bit: u8) -> (r: u128) {
        let r = 1u128 << (bit as u128);
        proof {
            assert forall|i: int| 0 <= i < 128 implies #[trigger] bits_of(r as nat, 128)[i] == (i == bit) by {
                lemma_u128_bit(r, i as nat);
                lemma_u128_ops(0, 0, i as u128, bit as u128);
            }
            assert(bits_of(r as nat, 128) =~= Seq::new(128, |i: int| i == bit));
        }
        r
    }

    fn bit_and(self, other: u128) -> (r: u128) {
        let r = self & other;
        proof {
            assert forall|i: int| 0 <= i < 128 implies #[trigger] bits_of(r as nat, 128)[i] == (bits_of(
                self as nat,
                128,
            )[i] && bits_of(other as nat, 128)[i]) by {
                lemma_u128_bit(self, i as nat);
                lemma_u128_bit(other, i as nat);
                lemma_u128_bit(r, i as nat);
                lemma_u128_ops(self, other, i as u128, 0);
            }
            assert(bits_of(r as nat, 128) =~= Seq::new(
                128,
                |i: int| bits_of(self as nat, 128)[i] && bits_of(other as nat, 128)[i],
            ));
        }
        r
    }

    fn bit_or(self, other: u128) -> (r: u128) {
        let r = self | other;
        proof {
            assert forall|i: int| 0 <= i < 128 implies #[trigger] bits_of(r as nat, 128)[i] == (bits_of(
                self as nat,
                128,
            )[i] || bits_of(other as nat, 128)[i]) by {
                lemma_u128_bit(self, i as nat);
                lemma_u128_bit(other, i as nat);
                lemma_u128_bit(r, i as nat);
                lemma_u128_ops(self, other, i as u128, 0);
            }
            assert(bits_of(r as nat, 128) =~= Seq::new(
                128,
                |i: int| bits_of(self as nat, 128)[i] || bits_of(other as nat, 128)[i],
            ));
        }
        r
    }

    fn bit_not(self) -> (r: u128) {
        let r = !self;
        proof {
            assert forall|i: int| 0 <= i < 128 implies #[trigger] bits_of(r as nat, 128)[i] == !bits_of(
                self as nat,
                128,
            )[i] by {
                lemma_u128_bit(self, i as nat);
                lemma_u128_bit(r, i as nat);
                lemma_u128_ops(self, 0, i as u128, 0);
            }
            assert(bits_of(r as nat, 128) =~= Seq::new(128, |i: int| !bits_of(self as nat, 128)[i]));
        }
        r
    }

    fn gt(self, other: u128) -> (r: bool) {
        self > other
    }
}

} // verus!
