//! Padding and alignment arithmetic.
//!
//! Pure address arithmetic: how much padding reaches the next multiple of
//! an alignment, the smallest block that can host a requested layout, and
//! where the indirect header slot of an over-aligned payload lies.

use vstd::prelude::*;

use crate::datablock::MIN_BLOCK_SIZE;
use crate::kernel_mem::POINTER_SIZE;

verus! {

/// Bytes needed on top of `size` to reach the next multiple of `align`.
pub open spec fn spec_padding_needed(size: int, align: int) -> int {
    (align - (size % align)) % align
}

/// The smallest payload a block must offer to host a request of `size`
/// bytes at alignment `align`: the size padded to a multiple of the
/// pointer width, a full extra `align` when the alignment exceeds the
/// pointer width (so an aligned address can be carved out wherever the
/// block happens to start), floored at the minimum block size.
pub open spec fn spec_minimum_block_size(size: int, align: int) -> int {
    let padded = size + spec_padding_needed(size, POINTER_SIZE as int);
    let extended = if align > POINTER_SIZE { padded + align } else { padded };
    if extended < MIN_BLOCK_SIZE { MIN_BLOCK_SIZE as int } else { extended }
}

/// The smallest payload for `size` bytes when no alignment padding is
/// called for.
pub open spec fn spec_minimum_block_size_no_padding(size: int) -> int {
    if size <= MIN_BLOCK_SIZE {
        MIN_BLOCK_SIZE as int
    } else {
        size + spec_padding_needed(size, POINTER_SIZE as int)
    }
}

/// The padding consumed in front of `address` to satisfy `align`.  When
/// `align` exceeds the pointer width and `address` is already aligned, a
/// full `align` of padding is taken anyway: the pointer-sized slot just
/// before the returned address must stay available for the indirect
/// header pointer.
pub open spec fn spec_next_align_padding(address: int, align: int) -> int {
    if align > POINTER_SIZE && address % align == 0 {
        align
    } else {
        spec_padding_needed(address, align)
    }
}

/// The alignments the engine accepts: at least one, and — alignments
/// being powers of two — any alignment beyond the pointer width is a
/// multiple of it.
pub open spec fn spec_align_ok(align: int) -> bool {
    &&& 1 <= align
    &&& align <= POINTER_SIZE ==> (POINTER_SIZE as int) % align == 0
    &&& align > POINTER_SIZE ==> align % (POINTER_SIZE as int) == 0
}

/// A pointer-aligned value is aligned for every divisor of the pointer
/// width.
pub proof fn lemma_pointer_align_divides(x: int, align: int)
    requires
        0 <= x,
        1 <= align,
        x % (POINTER_SIZE as int) == 0,
        (POINTER_SIZE as int) % align == 0,
    ensures
        x % align == 0,
{
    let p = POINTER_SIZE as int;
    vstd::arithmetic::div_mod::lemma_fundamental_div_mod(x, p);
    vstd::arithmetic::div_mod::lemma_fundamental_div_mod(p, align);
    let k = x / p;
    let m = p / align;
    assert(x == align * (m * k)) by (nonlinear_arith)
        requires
            x == p * k,
            p == align * m,
    ;
    assert(align * (m * k) == (m * k) * align) by (nonlinear_arith);
    vstd::arithmetic::div_mod::lemma_mod_multiples_basic(m * k, align);
}

/// On a pointer-aligned address, the padding consumed for an alignment
/// beyond the pointer width is a whole number of pointer widths and at
/// least one: the slot for the indirect header pointer always fits in it.
pub proof fn lemma_align_padding_slot(address: int, align: int)
    requires
        0 <= address,
        address % (POINTER_SIZE as int) == 0,
        POINTER_SIZE < align,
        align % (POINTER_SIZE as int) == 0,
    ensures
        POINTER_SIZE <= spec_next_align_padding(address, align) <= align,
        spec_next_align_padding(address, align) % (POINTER_SIZE as int) == 0,
{
    let p = POINTER_SIZE as int;
    let m = address % align;
    lemma_padding_needed(address, align);
    assert(m % p == 0) by {
        vstd::arithmetic::div_mod::lemma_fundamental_div_mod(address, align);
        let q = address / align;
        assert(m == address - align * q);
        assert((align * q) % p == 0) by {
            let t = align / p;
            vstd::arithmetic::div_mod::lemma_fundamental_div_mod(align, p);
            assert(align * q == (t * q) * p) by (nonlinear_arith)
                requires
                    align == p * t,
            ;
            vstd::arithmetic::div_mod::lemma_mod_multiples_basic(t * q, p);
        }
        vstd::arithmetic::div_mod::lemma_sub_mod_noop(address, align * q, p);
        vstd::arithmetic::div_mod::lemma_mod_division_less_than_divisor(address, align);
        vstd::arithmetic::div_mod::lemma_small_mod((m % p) as nat, p as nat);
        vstd::arithmetic::div_mod::lemma_mod_division_less_than_divisor(m, p);
    }
    if m == 0 {
        assert(spec_next_align_padding(address, align) == align);
    } else {
        let pad = spec_next_align_padding(address, align);
        assert(pad == align - m);
        assert(pad % p == 0) by {
            vstd::arithmetic::div_mod::lemma_sub_mod_noop(align, m, p);
            vstd::arithmetic::div_mod::lemma_mod_self_0(p);
            vstd::arithmetic::div_mod::lemma_mod_division_less_than_divisor(align - m, p);
            vstd::arithmetic::div_mod::lemma_small_mod(((align - m) % p) as nat, p as nat);
        }
        assert(1 <= pad);
        if pad < p {
            vstd::arithmetic::div_mod::lemma_small_mod(pad as nat, p as nat);
        }
    }
}

/// Padding to the next multiple is less than one multiple, lands exactly
/// on a multiple, and is zero exactly on a multiple.
pub proof fn lemma_padding_needed(size: int, align: int)
    requires
        0 <= size,
        1 <= align,
    ensures
        0 <= spec_padding_needed(size, align) < align,
        (size + spec_padding_needed(size, align)) % align == 0,
        spec_padding_needed(size, align) == 0 <==> size % align == 0,
        spec_padding_needed(size, align) == if size % align == 0 {
            0
        } else {
            align - size % align
        },
{
    let m = size % align;
    vstd::arithmetic::div_mod::lemma_mod_division_less_than_divisor(size, align);
    if m == 0 {
        vstd::arithmetic::div_mod::lemma_mod_self_0(align);
    } else {
        vstd::arithmetic::div_mod::lemma_small_mod((align - m) as nat, align as nat);
        vstd::arithmetic::div_mod::lemma_fundamental_div_mod(size, align);
        assert(size + (align - m) == align * (size / align) + align);
        assert((align * (size / align) + align) % align == 0) by {
            vstd::arithmetic::div_mod::lemma_mod_multiples_basic(size / align + 1, align);
            assert(align * (size / align) + align == (size / align + 1) * align) by (nonlinear_arith);
        }
    }
}

/// Bytes needed on top of `size` to reach the next multiple of `align`.
pub fn padding_needed_for(size: usize, align: usize) -> (r: usize)
    requires
        1 <= align,
    ensures
        r == spec_padding_needed(size as int, align as int),
        r < align,
        (size + r) % (align as int) == 0,
        r == 0 <==> (size as int) % (align as int) == 0,
{
    proof {
        lemma_padding_needed(size as int, align as int);
    }
    (align - (size % align)) % align
}

/// The smallest payload a block must offer for a request of `size` bytes
/// at alignment `align`.
pub fn minimum_block_size_for(size: usize, align: usize) -> (r: usize)
    requires
        1 <= align,
        size + POINTER_SIZE + align <= usize::MAX,
    ensures
        r == spec_minimum_block_size(size as int, align as int),
        MIN_BLOCK_SIZE <= r,
        size <= r,
{
    let mut s: usize = size + padding_needed_for(size, POINTER_SIZE);
    if align > POINTER_SIZE {
        s = s + align;
    }
    if s < MIN_BLOCK_SIZE {
        return MIN_BLOCK_SIZE;
    }
    s
}

/// The smallest payload for `size` bytes when no alignment padding is
/// called for.
pub fn minimum_block_size_no_padding(size: usize) -> (r: usize)
    requires
        size + POINTER_SIZE <= usize::MAX,
    ensures
        r == spec_minimum_block_size_no_padding(size as int),
        MIN_BLOCK_SIZE <= r,
        size <= r,
{
    if size <= MIN_BLOCK_SIZE {
        MIN_BLOCK_SIZE
    } else {
        size + padding_needed_for(size, POINTER_SIZE)
    }
}

/// The next address at or after `address` satisfying `align`, and the
/// padding consumed to reach it.
pub fn next_aligned(address: usize, align: usize) -> (r: (usize, usize))
    requires
        1 <= align,
        address + align <= usize::MAX,
    ensures
        r.1 == spec_next_align_padding(address as int, align as int),
        r.0 == address + r.1,
        r.1 <= align,
        (r.0 as int) % (align as int) == 0,
        align > POINTER_SIZE ==> 1 <= r.1,
    {
        let off: usize = padding_needed_for(address, align);
        let padding: usize = if align > POINTER_SIZE && off == 0 {
            align
        } else {
            off
        };
        proof {
            if align > POINTER_SIZE && off == 0 {
                vstd::arithmetic::div_mod::lemma_mod_add_multiples_vanish(address as int, align as int);
            }
        }
        (address + padding, padding)
    }

/// The padding `next_aligned` would consume in front of `address`.
pub fn padding_required(address: usize, align: usize) -> (r: usize)
    requires
        1 <= align,
        address + align <= usize::MAX,
    ensures
        r == spec_next_align_padding(address as int, align as int),
{
    let next = next_aligned(address, align);
    next.1
}

/// The address of the pointer-sized slot immediately preceding `address`:
/// for an over-aligned payload it holds the indirect pointer to the true
/// header, written at allocation time and read back at deallocation time.
pub fn header_ptr_of(address: usize) -> (r: usize)
    requires
        POINTER_SIZE <= address,
    ensures
        r == address - POINTER_SIZE,
{
    address - POINTER_SIZE
}

} // verus!
