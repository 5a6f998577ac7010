//! Heap allocation for the kernel: alignment arithmetic shared by the
//! allocator, and the free-list allocator itself in [`linked_list`].

use vstd::prelude::*;
use vstd::arithmetic::div_mod::{
    lemma_fundamental_div_mod, lemma_mod_bound, lemma_mod_decreases, lemma_mod_multiples_basic,
};

pub mod linked_list;

verus! {

/// The smallest multiple of `align` that is at least `addr`.
pub open spec fn spec_align_up(addr: int, align: int) -> int {
    if addr % align == 0 {
        addr
    } else {
        addr + (align - addr % align)
    }
}

/// `spec_align_up` lands on a multiple of `align` within `align - 1` bytes
/// above `addr`.
pub proof fn lemma_align_up(addr: int, align: int)
    requires
        addr >= 0,
        align >= 1,
    ensures
        spec_align_up(addr, align) % align == 0,
        addr <= spec_align_up(addr, align) < addr + align,
{
    lemma_mod_bound(addr, align);
    if addr % align != 0 {
        lemma_fundamental_div_mod(addr, align);
        let q = addr / align;
        assert(addr + (align - addr % align) == (q + 1) * align) by (nonlinear_arith)
            requires
                addr == align * q + addr % align,
        ;
        lemma_mod_multiples_basic(q + 1, align);
    }
}

/// Round `addr` up to the next multiple of `align`.
pub fn align_up(addr: usize, align: usize) -> (r: usize)
    requires
        align >= 1,
        spec_align_up(addr as int, align as int) <= usize::MAX,
    ensures
        r == spec_align_up(addr as int, align as int),
        r % align == 0,
        addr <= r < addr + align,
{
    proof {
        lemma_align_up(addr as int, align as int);
        lemma_mod_decreases(addr as nat, align as nat);
    }
    let rem = addr % align;
    if rem == 0 {
        addr
    } else {
        addr - rem + align
    }
}

} // verus!
