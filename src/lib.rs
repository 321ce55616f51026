//! Fixed-width bit registers over the unsigned integer types `u8` to `u128`.
//!
//! A [`Bits`] register packs its flags in one unsigned integer and keeps,
//! beside it, a per-index record of which flags were last turned on.

pub mod bit_manipulation;
pub mod bit_math;
pub mod uint;

pub use bit_manipulation::Bits;
pub use uint::Uint;
