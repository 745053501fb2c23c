//! Size and alignment arithmetic.
//!
//! Byte alignment is always 1. The system alignment is the alignment used for
//! the hidden header word of the size-tagged allocation scheme; this crate
//! fixes it at 8 bytes, the pointer width of the 64-bit targets it is built
//! for.

use vstd::arithmetic::div_mod::{
    lemma_fundamental_div_mod, lemma_mod_bound, lemma_mod_multiples_basic,
};
use vstd::arithmetic::div_mod::lemma_mod_self_0;
use vstd::arithmetic::power2::{
    lemma2_to64, lemma2_to64_rest, lemma_pow2_adds, lemma_pow2_pos,
    lemma_pow2_strictly_increases, pow2,
};
use vstd::bits::{lemma_usize_low_bits_mask_is_mod, low_bits_mask};
use vstd::prelude::*;

verus! {

/// Alignment of a single byte: the same on every target.
pub const BYTE_ALIGN_SIZE: usize = 1;

/// Alignment of the pointer-sized integers on the supported targets.
pub const SYS_ALIGN_SIZE: usize = 8;

/// A valid alignment is a power of two.
pub open spec fn is_alignment(align: usize) -> bool {
    exists|e: nat| align == pow2(e)
}

/// `size` rounded up to the nearest multiple of `align`.
pub open spec fn round_up(size: int, align: int) -> int
    recommends
        align > 0,
{
    if size % align == 0 {
        size
    } else {
        size + align - size % align
    }
}

/// The rounded size is a multiple of `align`, is no smaller than `size`, and
/// exceeds `size` by less than `align`.
pub proof fn lemma_round_up_properties(size: int, align: int)
    requires
        align > 0,
        size >= 0,
    ensures
        round_up(size, align) % align == 0,
        round_up(size, align) >= size,
        round_up(size, align) < size + align,
{
    let r = round_up(size, align);
    lemma_fundamental_div_mod(size, align);
    lemma_mod_bound(size, align);
    if size % align != 0 {
        assert(r == align * (size / align) + align);
        assert(r % align == 0) by {
            lemma_mod_multiples_basic(size / align + 1, align);
            assert(align * (size / align) + align == (size / align + 1) * align) by (nonlinear_arith);
        }
    }
}

/// Two multiples of `align` within the same window of width `align` are equal.
pub proof fn lemma_round_unique(x: int, align: int, r1: int, r2: int)
    requires
        align > 0,
        r1 % align == 0,
        r2 % align == 0,
        x <= r1 < x + align,
        x <= r2 < x + align,
    ensures
        r1 == r2,
{
    let q1 = r1 / align;
    let q2 = r2 / align;
    lemma_fundamental_div_mod(r1, align);
    lemma_fundamental_div_mod(r2, align);
    assert(q1 == q2) by (nonlinear_arith)
        requires
            align > 0,
            r1 == align * q1,
            r2 == align * q2,
            x <= r1 < x + align,
            x <= r2 < x + align,
    ;
}

/// A power of two is exactly a value with a single bit set, which the usual
/// mask test recognizes.
pub proof fn lemma_alignment_bits_equiv(align: usize)
    ensures
        is_alignment(align) <==> (align != 0 && align & ((align - 1) as usize) == 0),
    decreases align,
{
    lemma2_to64();
    if align != 0 && align & ((align - 1) as usize) == 0 {
        if align == 1 {
            assert(align == pow2(0));
        } else {
            let h = align / 2;
            assert(align % 2 == 0 && h != 0 && h & ((h - 1) as usize) == 0 && h < align)
                by (bit_vector)
                requires
                    align > 1 && align & ((align - 1) as usize) == 0 && h == align / 2,
            ;
            lemma_alignment_bits_equiv(h);
            let e = choose|e: nat| h == pow2(e);
            lemma_pow2_adds(1, e);
            assert(align == pow2(1 + e));
        }
    }
    if is_alignment(align) {
        let e = lemma_alignment_exponent(align);
        lemma_pow2_pos(e);
        let m = (align - 1) as usize;
        assert(low_bits_mask(e) == m);
        lemma_usize_low_bits_mask_is_mod(align, e);
        lemma_mod_self_0(align as int);
    }
}

/// A size that is already a multiple of a power-of-two alignment leaves room
/// for `align - 1` more bytes below the word limit.
pub proof fn lemma_aligned_size_fits(size: usize, align: usize)
    requires
        is_alignment(align),
        size as int % align as int == 0,
    ensures
        size + align - 1 <= usize::MAX,
{
    let e = lemma_alignment_exponent(align);
    lemma2_to64();
    lemma2_to64_rest();
    assert(pow2(usize::BITS as nat) == usize::MAX + 1);
    lemma_pow2_adds(e, (usize::BITS - e) as nat);
    let m = pow2((usize::BITS - e) as nat) as int;
    let a = align as int;
    let q = size as int / a;
    lemma_pow2_pos(e);
    lemma_fundamental_div_mod(size as int, a);
    assert(usize::MAX + 1 == a * m);
    assert(size as int == a * q);
    assert(a * q + a <= a * m) by (nonlinear_arith)
        requires
            a > 0,
            a * q < a * m,
    ;
}

/// The exponent of a power-of-two alignment is below the word width.
proof fn lemma_alignment_exponent(align: usize) -> (e: nat)
    requires
        is_alignment(align),
    ensures
        align == pow2(e),
        e < usize::BITS,
{
    let e = choose|e: nat| align == pow2(e);
    if e >= usize::BITS {
        lemma2_to64();
        lemma2_to64_rest();
        if e > usize::BITS {
            lemma_pow2_strictly_increases(usize::BITS as nat, e);
        }
        assert(pow2(usize::BITS as nat) > usize::MAX);
        assert(false);
    }
    e
}

/// Masking `s` with the complement of `align - 1` clears `s % align`.
proof fn lemma_mask_clears_mod(s: usize, align: usize)
    requires
        is_alignment(align),
    ensures
        s & !((align - 1) as usize) == s - s % align,
        s % align == align - 1 ==> s & !((align - 1) as usize) == s - (align - 1),
{
    let e = lemma_alignment_exponent(align);
    lemma_pow2_pos(e);
    let m = (align - 1) as usize;
    assert(low_bits_mask(e) == m);
    lemma_usize_low_bits_mask_is_mod(s, e);
    assert((s & m) + (s & !m) == s && (s & m) <= m) by (bit_vector);
}

/// Size (in bytes) of a value of type `T` on the target.
pub fn size_of<T>() -> (r: usize)
    ensures
        r == vstd::layout::size_of::<T>(),
{
    core::mem::size_of::<T>()
}

/// Minimal alignment (in bytes) of a value of type `T` on the target.
pub fn align_of<T>() -> (r: usize)
    ensures
        r == vstd::layout::align_of::<T>(),
{
    core::mem::align_of::<T>()
}

/// Rounds `size` up to the nearest multiple of `align`, by masking away the
/// low bits of `size + (align - 1)`.
///
/// `align` must be a power of two, and the rounded size must still fit in a
/// machine word.
pub fn size_of_aligned(size: usize, align: usize) -> (r: usize)
    requires
        is_alignment(align),
        size + align - 1 <= usize::MAX,
    ensures
        r == round_up(size as int, align as int),
{
    proof {
        let e = lemma_alignment_exponent(align);
        lemma_pow2_pos(e);
    }
    let s = size + (align - 1);
    let r = s & !(align - 1);
    proof {
        let x = size as int;
        let a = align as int;
        let si = s as int;
        lemma_mask_clears_mod(s, align);
        lemma_fundamental_div_mod(si, a);
        lemma_mod_bound(si, a);
        assert(r == si - si % a);
        assert(r as int % a == 0) by {
            assert(si - si % a == a * (si / a));
            assert(a * (si / a) == (si / a) * a) by (nonlinear_arith);
            lemma_mod_multiples_basic(si / a, a);
        }
        assert(x <= r < x + a);
        lemma_round_up_properties(x, a);
        lemma_round_unique(x, a, r as int, round_up(x, a));
    }
    r
}

/// Rounds `size` up to the nearest multiple of the system alignment.
pub fn size_of_sys_aligned(size: usize) -> (r: usize)
    requires
        size + SYS_ALIGN_SIZE - 1 <= usize::MAX,
    ensures
        r == round_up(size as int, SYS_ALIGN_SIZE as int),
{
    proof {
        lemma_sys_align_is_alignment();
    }
    size_of_aligned(size, SYS_ALIGN_SIZE)
}

/// The system alignment is a power of two.
pub proof fn lemma_sys_align_is_alignment()
    ensures
        is_alignment(SYS_ALIGN_SIZE),
{
    lemma2_to64();
    assert(SYS_ALIGN_SIZE == pow2(3));
}

} // verus!
