//! Alignment arithmetic for ring-buffer sub-allocation.
//!
//! A sub-allocation that starts at element index `idx` of a buffer whose
//! elements are `element_size` bytes wide begins at byte `idx * element_size`.
//! When the pool's usage demands a minimum offset alignment of `align_bytes`,
//! the data is pushed forward by `spec_align_offset` bytes, and the padding is
//! accounted for in whole elements, `spec_pad_elems` of them.

use vstd::prelude::*;
use vstd::arithmetic::div_mod::lemma_fundamental_div_mod;
use vstd::arithmetic::div_mod::lemma_mod_division_less_than_divisor;
use vstd::arithmetic::div_mod::lemma_mod_multiples_basic;
use vstd::arithmetic::div_mod::lemma_mod_self_0;
use vstd::arithmetic::div_mod::lemma_small_mod;
use vstd::arithmetic::div_mod::lemma_div_pos_is_pos;
use vstd::arithmetic::mul::lemma_mul_nonnegative;

verus! {

/// Bytes to add to byte position `idx * element_size` so that the data starts
/// on a multiple of `align_bytes`.
pub open spec fn spec_align_offset(idx: int, element_size: int, align_bytes: int) -> int {
    (align_bytes - ((idx * element_size) % align_bytes)) % align_bytes
}

/// Whole elements consumed by an alignment offset of `align_offset` bytes.
pub open spec fn spec_pad_elems(align_offset: int, element_size: int) -> int {
    if align_offset == 0 {
        0
    } else {
        1 + (align_offset - 1) / element_size
    }
}

/// The alignment offset lands the data on a multiple of the alignment: adding
/// `spec_align_offset` to the byte position makes it divisible by
/// `align_bytes`, and the offset itself is less than one alignment step.
pub proof fn lemma_align_offset_correct(idx: int, element_size: int, align_bytes: int)
    requires
        idx >= 0,
        element_size >= 0,
        align_bytes >= 1,
    ensures
        0 <= spec_align_offset(idx, element_size, align_bytes) < align_bytes,
        (idx * element_size + spec_align_offset(idx, element_size, align_bytes)) % align_bytes
            == 0,
{
    let x = idx * element_size;
    lemma_mul_nonnegative(idx, element_size);
    lemma_mod_division_less_than_divisor(x, align_bytes);
    let m = x % align_bytes;
    if m == 0 {
        lemma_mod_self_0(align_bytes);
        assert(spec_align_offset(idx, element_size, align_bytes) == 0);
    } else {
        lemma_small_mod((align_bytes - m) as nat, align_bytes as nat);
        assert(spec_align_offset(idx, element_size, align_bytes) == align_bytes - m);
        lemma_fundamental_div_mod(x, align_bytes);
        assert(x + (align_bytes - m) == align_bytes * (x / align_bytes + 1)) by {
            assert(x == align_bytes * (x / align_bytes) + m);
            vstd::arithmetic::mul::lemma_mul_is_distributive_add(
                align_bytes, x / align_bytes, 1);
        }
        lemma_mod_multiples_basic(x / align_bytes + 1, align_bytes);
    }
}

/// The element padding covers the byte offset: skipping `spec_pad_elems`
/// whole elements skips at least `align_offset` bytes.
pub proof fn lemma_pad_covers(align_offset: int, element_size: int)
    requires
        align_offset >= 0,
        element_size >= 1,
    ensures
        spec_pad_elems(align_offset, element_size) >= 0,
        align_offset <= spec_pad_elems(align_offset, element_size) * element_size,
{
    if align_offset != 0 {
        let q = (align_offset - 1) / element_size;
        let r = (align_offset - 1) % element_size;
        lemma_fundamental_div_mod(align_offset - 1, element_size);
        lemma_mod_division_less_than_divisor(align_offset - 1, element_size);
        lemma_div_pos_is_pos(align_offset - 1, element_size);
        assert((1 + q) * element_size == element_size + q * element_size) by {
            vstd::arithmetic::mul::lemma_mul_is_distributive_add_other_way(
                element_size, 1, q);
        }
        assert(align_offset - 1 == element_size * q + r);
        assert(q * element_size == element_size * q) by {
            vstd::arithmetic::mul::lemma_mul_is_commutative(q, element_size);
        }
    }
}

} // verus!
