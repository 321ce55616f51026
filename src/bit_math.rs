//! The mathematical model of a packed register: a natural number read as a
//! sequence of bits, least significant first.

use vstd::prelude::*;

verus! {

use vstd::arithmetic::div_mod::lemma_div_denominator;
use vstd::arithmetic::power2::{lemma2_to64, lemma_pow2_pos, lemma_pow2_unfold, pow2};

/// Whether bit `i` (counted from the least significant bit) of `n` is one.
pub open spec fn is_set(n: nat, i: nat) -> bool {
    (n / pow2(i)) % 2 == 1
}

/// The `w` lowest bits of `n`, least significant first.
pub open spec fn bits_of(n: nat, w: nat) -> Seq<bool> {
    Seq::new(w, |i: int| is_set(n, i as nat))
}

/// No bit of zero is set.
pub proof fn lemma_zero_bits(w: nat)
    ensures
        bits_of(0, w) == Seq::new(w, |i: int| false),
{
    assert forall|i: int| 0 <= i < w implies !#[trigger] is_set(0, i as nat) by {
        lemma_pow2_pos(i as nat);
    }
    assert(bits_of(0, w) =~= Seq::new(w, |i: int| false));
}

/// Bit `i + 1` of `n` is bit `i` of `n / 2`.
proof fn lemma_is_set_half(n: nat, i: nat)
    ensures
        is_set(n, i + 1) == is_set(n / 2, i),
{
    lemma_pow2_pos(i);
    lemma_pow2_unfold(i + 1);
    lemma_div_denominator(n as int, 2, pow2(i) as int);
}

/// A number below `2^w` is determined by its `w` lowest bits.
pub proof fn lemma_bits_determine(a: nat, b: nat, w: nat)
    requires
        a < pow2(w),
        b < pow2(w),
        bits_of(a, w) == bits_of(b, w),
    ensures
        a == b,
    decreases w,
{
    lemma2_to64();
    if w > 0 {
        let hw = (w - 1) as nat;
        lemma_pow2_unfold(w);
        // The lowest bits agree, so the parities do.
        assert(bits_of(a, w)[0] == is_set(a, 0) && bits_of(b, w)[0] == is_set(b, 0));
        // The remaining bits are those of the halves.
        assert forall|i: int| 0 <= i < hw implies #[trigger] bits_of(a / 2, hw)[i] == bits_of(
            b / 2,
            hw,
        )[i] by {
            let j = i + 1;
            lemma_is_set_half(a, i as nat);
            lemma_is_set_half(b, i as nat);
            assert(bits_of(a, w)[j] == is_set(a, j as nat));
            assert(bits_of(b, w)[j] == is_set(b, j as nat));
        }
        assert(bits_of(a / 2, hw) =~= bits_of(b / 2, hw));
        lemma_bits_determine(a / 2, b / 2, hw);
    }
}

} // verus!
