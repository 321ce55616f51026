//! A register of flags packed in one unsigned integer.

use vstd::prelude::*;

verus! {

use crate::bit_math::{bits_of, is_set, lemma_bits_determine, lemma_zero_bits};
use crate::uint::Uint;
use vstd::arithmetic::power2::{lemma_pow2_pos, pow2};

/// A register of `T::width()` flags packed in one `T`.
///
/// Beside the packed value it keeps a record with one entry per flag, which
/// the single-flag and list operations write: `true` where a flag was last
/// turned on (or found on), `false` where it was last cleared. Resetting or
/// filling the whole value leaves that record as it was.
#[derive(Debug)]
pub struct Bits<T: Uint> {
    value: T,
    activated_bits: Vec<bool>,
    size: u8,
}

/// Whether `indices` holds index `j`.
pub open spec fn lists(indices: Seq<u8>, j: int) -> bool {
    exists|k: int| 0 <= k < indices.len() && indices[k] == j
}

/// Taking one more element of `indices` adds exactly that element.
proof fn lemma_lists_take_next(indices: Seq<u8>, k: int)
    requires
        0 <= k < indices.len(),
    ensures
        forall|j: int|
            #[trigger] lists(indices.take(k + 1), j) == (lists(indices.take(k), j) || indices[k]
                == j),
{
    assert forall|j: int|
        #[trigger] lists(indices.take(k + 1), j) == (lists(indices.take(k), j) || indices[k]
            == j) by {
        let longer = indices.take(k + 1);
        let shorter = indices.take(k);
        if lists(longer, j) {
            let m = choose|m: int| 0 <= m < longer.len() && #[trigger] longer[m] == j;
            if m < k {
                assert(shorter[m] == j);
            }
        }
        if lists(shorter, j) {
            let m = choose|m: int| 0 <= m < shorter.len() && #[trigger] shorter[m] == j;
            assert(longer[m] == j);
        }
        if indices[k] == j {
            assert(longer[k] == j);
        }
    }
}

impl<T: Uint> Bits<T> {
    /// The packed value.
    pub closed spec fn value(self) -> T {
        self.value
    }

    /// The record of which flags were last turned on.
    pub closed spec fn activity(self) -> Seq<bool> {
        self.activated_bits@
    }

    /// The width the register was built with.
    pub closed spec fn size(self) -> nat {
        self.size as nat
    }

    /// The register's invariant: the width is that of `T`, and the record
    /// has one entry per flag.
    pub open spec fn wf(self) -> bool {
        &&& self.size() == T::width()
        &&& self.activity().len() == T::width()
    }

    /// The flags as the packed value holds them, least significant first.
    pub open spec fn on(self) -> Seq<bool> {
        bits_of(self.value().to_nat(), T::width())
    }

    /// Whether `bit` is a flag of the register and is on.
    pub open spec fn bit_on(self, bit: int) -> bool {
        0 <= bit < T::width() && self.on()[bit]
    }

    /// `after` and `r` are what `set_bit(bit)` makes of `self` and returns.
    pub open spec fn set_bit_post(self, after: Self, bit: u8, r: bool) -> bool {
        &&& after.wf()
        &&& r == (bit < T::width())
        &&& r ==> after.on() == self.on().update(bit as int, true) && after.activity()
            == self.activity().update(bit as int, true)
        &&& !r ==> after == self
    }

    /// `after` and `r` are what `clear_bit(bit)` makes of `self` and returns.
    pub open spec fn clear_bit_post(self, after: Self, bit: u8, r: bool) -> bool {
        &&& after.wf()
        &&& r == (bit < T::width())
        &&& r ==> after.on() == self.on().update(bit as int, false) && after.activity()
            == self.activity().update(bit as int, false)
        &&& !r ==> after == self
    }

    /// `after` is what `set_bits(indices)` makes of `self`.
    pub open spec fn set_bits_post(self, after: Self, indices: Seq<u8>) -> bool {
        &&& after.wf()
        &&& after.on() == Seq::new(T::width(), |j: int| self.on()[j] || lists(indices, j))
        &&& after.activity() == Seq::new(
            T::width(),
            |j: int| self.activity()[j] || lists(indices, j),
        )
    }

    /// `after` is what `clear_bits(indices)` makes of `self`.
    pub open spec fn clear_bits_post(self, after: Self, indices: Seq<u8>) -> bool {
        &&& after.wf()
        &&& after.on() == Seq::new(T::width(), |j: int| self.on()[j] && !lists(indices, j))
        &&& after.activity() == Seq::new(
            T::width(),
            |j: int| self.activity()[j] && !lists(indices, j),
        )
    }

    /// `after` is what `are_bits_on(indices)` makes of `self`.
    pub open spec fn are_bits_on_post(self, after: Self, indices: Seq<u8>) -> bool {
        &&& after.wf()
        &&& after.value() == self.value()
        &&& after.activity() == Seq::new(
            T::width(),
            |j: int| self.activity()[j] || (lists(indices, j) && self.on()[j]),
        )
    }

    /// Creates a register with every flag off and an all-`false` record.
    pub fn new() -> (r: Self)
        ensures
            r.wf(),
            r.value().to_nat() == 0,
            r.activity() == Seq::new(T::width(), |i: int| false),
    {
        let size = T::in_memory_size();
        let r = Bits { value: T::from_u8(0), activated_bits: vec![false; size as usize], size };
        assert(r.activity() =~= Seq::new(T::width(), |i: int| false));
        r
    }

    /// Whether flag `bit` is on; `false` for an index past the width.
    pub fn is_bit_on(&self, bit: u8) -> (r: bool)
        requires
            self.wf(),
        ensures
            r == self.bit_on(bit as int),
    {
        if bit >= self.size {
            return false;
        }
        let masked = self.value.bit_and(T::convert(bit));
        let r = masked.gt(T::from_u8(0));
        proof {
            let w = T::width();
            T::lemma_bounds(masked);
            lemma_zero_bits(w);
            if !self.on()[bit as int] {
                assert(bits_of(masked.to_nat(), w) =~= bits_of(0, w));
                lemma_pow2_pos(w);
                lemma_bits_determine(masked.to_nat(), 0, w);
            } else {
                assert(bits_of(masked.to_nat(), w)[bit as int]);
            }
        }
        r
    }

    /// Turns flag `bit` on and records it; returns `false`, changing
    /// nothing, for an index past the width.
    pub fn set_bit(&mut self, bit: u8) -> (r: bool)
        requires
            old(self).wf(),
        ensures
            old(self).set_bit_post(*final(self), bit, r),
    {
        if bit >= self.size {
            return false;
        }
        self.value = self.value.bit_or(T::convert(bit));
        self.activated_bits.set(bit as usize, true);
        assert(self.on() =~= old(self).on().update(bit as int, true));
        true
    }

    /// Turns flag `bit` off and records it; returns `false`, changing
    /// nothing, for an index past the width.
    pub fn clear_bit(&mut self, bit: u8) -> (r: bool)
        requires
            old(self).wf(),
        ensures
            old(self).clear_bit_post(*final(self), bit, r),
    {
        if bit >= self.size {
            return false;
        }
        self.value = self.value.bit_and(T::convert(bit).bit_not());
        self.activated_bits.set(bit as usize, false);
        assert(self.on() =~= old(self).on().update(bit as int, false));
        true
    }

    /// Marks in the record every listed flag that is on, leaving the other
    /// entries as they were, and returns the record. Indices past the width
    /// are skipped.
    pub fn are_bits_on(&mut self, bits: &Vec<u8>) -> (r: &Vec<bool>)
        requires
            old(self).wf(),
        ensures
            old(self).are_bits_on_post(*final(self), bits@),
            r@ == final(self).activity(),
    {
        let ghost start = *self;
        let mut k: usize = 0;
        while k < bits.len()
            invariant
                0 <= k <= bits.len(),
                start.wf(),
                self.wf(),
                self.value() == start.value(),
                self.activity() == Seq::new(
                    T::width(),
                    |j: int| start.activity()[j] || (lists(bits@.take(k as int), j) && start.on()[j]),
                ),
            decreases bits.len() - k,
        {
            let bit = bits[k];
            if self.is_bit_on(bit) {
                self.activated_bits.set(bit as usize, true);
            }
            proof {
                lemma_lists_take_next(bits@, k as int);
            }
            assert(self.activity() =~= Seq::new(
                T::width(),
                |j: int| start.activity()[j] || (lists(bits@.take(k + 1), j) && start.on()[j]),
            ));
            k = k + 1;
        }
        assert(bits@.take(bits.len() as int) =~= bits@);
        &self.activated_bits
    }

    /// Turns on every listed flag, as `set_bit` does, and returns the record.
    /// Indices past the width are skipped.
    pub fn set_bits(&mut self, bits: &Vec<u8>) -> (r: &Vec<bool>)
        requires
            old(self).wf(),
        ensures
            old(self).set_bits_post(*final(self), bits@),
            r@ == final(self).activity(),
    {
        let ghost start = *self;
        let mut k: usize = 0;
        while k < bits.len()
            invariant
                0 <= k <= bits.len(),
                start.wf(),
                self.wf(),
                self.on() == Seq::new(
                    T::width(),
                    |j: int| start.on()[j] || lists(bits@.take(k as int), j),
                ),
                self.activity() == Seq::new(
                    T::width(),
                    |j: int| start.activity()[j] || lists(bits@.take(k as int), j),
                ),
            decreases bits.len() - k,
        {
            self.set_bit(bits[k]);
            proof {
                lemma_lists_take_next(bits@, k as int);
            }
            assert(self.on() =~= Seq::new(
                T::width(),
                |j: int| start.on()[j] || lists(bits@.take(k + 1), j),
            ));
            assert(self.activity() =~= Seq::new(
                T::width(),
                |j: int| start.activity()[j] || lists(bits@.take(k + 1), j),
            ));
            k = k + 1;
        }
        assert(bits@.take(bits.len() as int) =~= bits@);
        &self.activated_bits
    }

    /// Turns off every listed flag, as `clear_bit` does, and returns the
    /// record. Indices past the width are skipped.
    pub fn clear_bits(&mut self, bits: &Vec<u8>) -> (r: &Vec<bool>)
        requires
            old(self).wf(),
        ensures
            old(self).clear_bits_post(*final(self), bits@),
            r@ == final(self).activity(),
    {
        let ghost start = *self;
        let mut k: usize = 0;
        while k < bits.len()
            invariant
                0 <= k <= bits.len(),
                start.wf(),
                self.wf(),
                self.on() == Seq::new(
                    T::width(),
                    |j: int| start.on()[j] && !lists(bits@.take(k as int), j),
                ),
                self.activity() == Seq::new(
                    T::width(),
                    |j: int| start.activity()[j] && !lists(bits@.take(k as int), j),
                ),
            decreases bits.len() - k,
        {
            self.clear_bit(bits[k]);
            proof {
                lemma_lists_take_next(bits@, k as int);
            }
            assert(self.on() =~= Seq::new(
                T::width(),
                |j: int| start.on()[j] && !lists(bits@.take(k + 1), j),
            ));
            assert(self.activity() =~= Seq::new(
                T::width(),
                |j: int| start.activity()[j] && !lists(bits@.take(k + 1), j),
            ));
            k = k + 1;
        }
        assert(bits@.take(bits.len() as int) =~= bits@);
        &self.activated_bits
    }

    /// Turns every flag off; the record is left as it was.
    pub fn clear_all_bits(&mut self)
        requires
            old(self).wf(),
        ensures
            final(self).wf(),
            final(self).value().to_nat() == 0,
            final(self).activity() == old(self).activity(),
    {
        self.value = T::from_u8(0);
    }

    /// The packed value.
    pub fn get_value(&self) -> (r: T)
        ensures
            r == self.value(),
    {
        self.value
    }

    /// The record of which flags were last turned on.
    pub fn get_all_bits(&self) -> (r: &Vec<bool>)
        ensures
            r@ == self.activity(),
    {
        &self.activated_bits
    }

    /// Turns every flag on: the value becomes the largest of `T`. The record
    /// is left as it was.
    pub fn set_all_flags(&mut self)
        requires
            old(self).wf(),
        ensures
            final(self).wf(),
            final(self).value().to_nat() == pow2(T::width()) - 1,
            final(self).on() == Seq::new(T::width(), |i: int| true),
            final(self).activity() == old(self).activity(),
    {
        self.value = T::max_value();
    }
}

impl<T: Uint> Default for Bits<T> {
    /// The same register as `new`: every flag off, an all-`false` record.
    fn default() -> (r: Self)
        ensures
            r.wf(),
            r.value().to_nat() == 0,
            r.activity() == Seq::new(T::width(), |i: int| false),
    {
        Self::new()
    }
}

/// Two registers whose flags agree hold the same value.
proof fn lemma_on_determines_value<T: Uint>(a: Bits<T>, b: Bits<T>)
    requires
        a.on() == b.on(),
    ensures
        a.value() == b.value(),
{
    T::lemma_bounds(a.value());
    T::lemma_bounds(b.value());
    lemma_bits_determine(a.value().to_nat(), b.value().to_nat(), T::width());
    T::lemma_to_nat_injective(a.value(), b.value());
}

/// Setting a flag within the width succeeds, and afterwards the flag reads
/// as on and its bit of the packed value is one.
pub proof fn lemma_set_bit_turns_on<T: Uint>(before: Bits<T>, after: Bits<T>, bit: u8, r: bool)
    requires
        before.wf(),
        before.set_bit_post(after, bit, r),
        bit < T::width(),
    ensures
        r,
        after.bit_on(bit as int),
        is_set(after.value().to_nat(), bit as nat),
{
}

/// Setting a flag past the width fails and keeps the value, and the flag
/// reads as off.
pub proof fn lemma_set_bit_past_width<T: Uint>(before: Bits<T>, after: Bits<T>, bit: u8, r: bool)
    requires
        before.wf(),
        before.set_bit_post(after, bit, r),
        bit >= T::width(),
    ensures
        !r,
        after.value() == before.value(),
        !after.bit_on(bit as int),
{
}

/// Setting a flag twice leaves the same value as setting it once.
pub proof fn lemma_set_bit_idempotent<T: Uint>(
    first: Bits<T>,
    once: Bits<T>,
    twice: Bits<T>,
    bit: u8,
    r1: bool,
    r2: bool,
)
    requires
        first.wf(),
        first.set_bit_post(once, bit, r1),
        once.set_bit_post(twice, bit, r2),
    ensures
        twice.value() == once.value(),
{
    if r1 {
        assert(twice.on() =~= once.on());
        lemma_on_determines_value(twice, once);
    }
}

/// Setting a flag that was off and then clearing it gives back the value
/// held before, and the flag reads as off.
pub proof fn lemma_set_then_clear<T: Uint>(
    before: Bits<T>,
    set: Bits<T>,
    cleared: Bits<T>,
    bit: u8,
    r1: bool,
    r2: bool,
)
    requires
        before.wf(),
        !before.bit_on(bit as int),
        before.set_bit_post(set, bit, r1),
        set.clear_bit_post(cleared, bit, r2),
    ensures
        cleared.value() == before.value(),
        !cleared.bit_on(bit as int),
{
    if r1 {
        assert(cleared.on() =~= before.on());
        lemma_on_determines_value(cleared, before);
    }
}

} // verus!
