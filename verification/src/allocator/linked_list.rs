//! A first-fit free-list allocator over a fixed, caller-provided heap range.
//!
//! The real kernel keeps the list *inside* the free memory itself, writing an
//! intrusive header (size plus next link) at the start of every free region.
//! Here the list is the verified model of that structure: each [`ListNode`]
//! records the start address and byte length of one free region, and every
//! contract is stated over the sequence of regions and the set of live
//! allocations.

use vstd::prelude::*;
use vstd::arithmetic::div_mod::{
    lemma_add_mod_noop, lemma_fundamental_div_mod, lemma_mod_decreases, lemma_mod_multiples_basic,
    lemma_mod_self_0,
};
use crate::allocator::{align_up, lemma_align_up, spec_align_up};

verus! {

/// Byte footprint of the intrusive header a free region must be able to
/// host: one machine word of size and one of link on the target.
pub const NODE_SIZE: usize = 16;

/// Start alignment every free region must satisfy so a header can be
/// written at its first byte.
pub const NODE_ALIGN: usize = 8;

/// One free region: `addr` is its first byte, `size` its byte length
/// (the space for the header included).
#[derive(Debug, Clone, Copy, PartialEq, Eq, Structural)]
pub struct ListNode {
    pub addr: usize,
    pub size: usize,
}

impl ListNode {
    /// One byte past the region, as a mathematical integer.
    pub open spec fn spec_end(self) -> int {
        self.addr + self.size
    }

    pub fn new(addr: usize, size: usize) -> (n: ListNode)
        ensures
            n == (ListNode { addr, size }),
    {
        ListNode { addr, size }
    }

    /// Return the start address of the region.
    pub fn start_addr(&self) -> (r: usize)
        ensures
            r == self.addr,
    {
        self.addr
    }

    /// Return the end address of the region.
    pub fn end_addr(&self) -> (r: usize)
        requires
            self.addr + self.size <= usize::MAX,
        ensures
            r == self.spec_end(),
    {
        self.addr + self.size
    }
}

/// A free region is well-formed when a header fits at its (suitably aligned)
/// start and its end does not wrap the address space.
pub open spec fn node_wf(n: ListNode) -> bool {
    &&& n.addr as int % (NODE_ALIGN as int) == 0
    &&& n.size >= NODE_SIZE
    &&& n.addr + n.size <= usize::MAX
}

/// The half-open byte ranges `[a1, a1 + s1)` and `[a2, a2 + s2)` share no byte.
pub open spec fn ranges_disjoint(a1: int, s1: int, a2: int, s2: int) -> bool {
    a1 + s1 <= a2 || a2 + s2 <= a1
}

/// Every region is well-formed and no two regions overlap.
pub open spec fn regions_wf(rs: Seq<ListNode>) -> bool {
    &&& forall|i: int| 0 <= i < rs.len() ==> node_wf(#[trigger] rs[i])
    &&& forall|i: int, j: int|
        0 <= i < rs.len() && 0 <= j < rs.len() && i != j ==> ranges_disjoint(
            (#[trigger] rs[i]).addr as int,
            rs[i].size as int,
            (#[trigger] rs[j]).addr as int,
            rs[j].size as int,
        )
}

/// `n` is 1, 2, 4, 8, ... .
pub open spec fn is_power_of_two(n: int) -> bool
    decreases n,
{
    if n <= 0 {
        false
    } else if n == 1 {
        true
    } else {
        n % 2 == 0 && is_power_of_two(n / 2)
    }
}

/// The alignment actually used for a request: at least the header alignment,
/// so a freed region can host a header again.
pub open spec fn padded_align(align: int) -> int {
    if align < NODE_ALIGN { NODE_ALIGN as int } else { align }
}

/// The size actually carved out for a request: rounded up to the padded
/// alignment and to at least the header size.
pub open spec fn padded_size(size: int, align: int) -> int {
    let s = spec_align_up(size, padded_align(align));
    if s < NODE_SIZE { NODE_SIZE as int } else { s }
}

/// If `b` divides `a` and `a` divides `p`, then `b` divides `p`.
proof fn lemma_divides_trans(p: int, a: int, b: int)
    requires
        a >= 1,
        b >= 1,
        p % a == 0,
        a % b == 0,
    ensures
        p % b == 0,
{
    lemma_fundamental_div_mod(p, a);
    lemma_fundamental_div_mod(a, b);
    assert(p == ((a / b) * (p / a)) * b) by (nonlinear_arith)
        requires
            p == a * (p / a) + 0,
            a == b * (a / b) + 0,
    ;
    lemma_mod_multiples_basic((a / b) * (p / a), b);
}

/// Every power of two at least `NODE_ALIGN` is a multiple of `NODE_ALIGN`.
proof fn lemma_pow2_multiple_of_node_align(n: int)
    requires
        is_power_of_two(n),
        n >= NODE_ALIGN,
    ensures
        n % (NODE_ALIGN as int) == 0,
    decreases n,
{
    if n == 8 {
    } else {
        // n is an even power of two above 8, so n / 2 is a power of two that
        // is at least 8 (5, 6 and 7 are not powers of two)
        assert(!is_power_of_two(5));
        assert(!is_power_of_two(3));
        assert(!is_power_of_two(6));
        assert(!is_power_of_two(7));
        lemma_pow2_multiple_of_node_align(n / 2);
        lemma_fundamental_div_mod(n, 2);
        lemma_fundamental_div_mod(n / 2, 8);
        assert(n == ((n / 2) / 8 * 2) * 8) by (nonlinear_arith)
            requires
                n == 2 * (n / 2) + 0,
                n / 2 == 8 * ((n / 2) / 8) + 0,
        ;
        lemma_mod_multiples_basic((n / 2) / 8 * 2, 8);
    }
}

/// The padded alignment is a multiple of both the requested alignment and
/// the header alignment.
proof fn lemma_padded_align_divides(align: int)
    requires
        is_power_of_two(align),
    ensures
        padded_align(align) >= NODE_ALIGN,
        padded_align(align) >= align >= 1,
        padded_align(align) % align == 0,
        padded_align(align) % (NODE_ALIGN as int) == 0,
        is_power_of_two(padded_align(align)),
{
    if align < NODE_ALIGN {
        // a power of two below 8 is 1, 2 or 4, each of which divides 8
        assert(!is_power_of_two(3));
        assert(!is_power_of_two(5));
        assert(!is_power_of_two(6));
        assert(!is_power_of_two(7));
        assert(is_power_of_two(2));
        assert(is_power_of_two(4));
        assert(is_power_of_two(8));
        assert(align == 1 || align == 2 || align == 4);
        assert(8int % align == 0);
    } else {
        lemma_pow2_multiple_of_node_align(align);
        lemma_mod_self_0(align);
    }
}

/// Where an allocation with the given alignment would start inside `n`.
pub open spec fn fit_start(n: ListNode, align: int) -> int {
    spec_align_up(n.addr as int, align)
}

/// Whether `n` can serve a request of `size` bytes at alignment `align`:
/// the aligned allocation must end inside the region, and the leftover tail
/// must either vanish or still be able to host a header.  Skipping a region
/// rather than leaving an unusable sliver is deliberate policy.
pub open spec fn region_fits(n: ListNode, size: int, align: int) -> bool {
    let end = fit_start(n, align) + size;
    &&& end <= n.spec_end()
    &&& (n.spec_end() - end == 0 || n.spec_end() - end >= NODE_SIZE)
}

/// Index of the first region in list order that can serve the request.
pub open spec fn first_fit(rs: Seq<ListNode>, size: int, align: int) -> Option<int>
    decreases rs.len(),
{
    if rs.len() == 0 {
        None
    } else if region_fits(rs[0], size, align) {
        Some(0int)
    } else {
        match first_fit(rs.skip(1), size, align) {
            Some(i) => Some(i + 1),
            None => None,
        }
    }
}

/// `first_fit` finds exactly the first fitting region.
pub proof fn lemma_first_fit_at(rs: Seq<ListNode>, size: int, align: int, i: int)
    requires
        0 <= i < rs.len(),
        region_fits(rs[i], size, align),
        forall|j: int| 0 <= j < i ==> !region_fits(#[trigger] rs[j], size, align),
    ensures
        first_fit(rs, size, align) == Some(i),
    decreases i,
{
    if i == 0 {
    } else {
        assert(!region_fits(rs[0], size, align));
        assert(rs.skip(1)[i - 1] == rs[i]);
        assert(forall|j: int| 0 <= j < i - 1 ==> #[trigger] rs.skip(1)[j] == rs[j + 1]);
        lemma_first_fit_at(rs.skip(1), size, align, i - 1);
    }
}

/// When no region fits, `first_fit` reports so.
pub proof fn lemma_first_fit_none(rs: Seq<ListNode>, size: int, align: int)
    requires
        forall|j: int| 0 <= j < rs.len() ==> !region_fits(#[trigger] rs[j], size, align),
    ensures
        first_fit(rs, size, align) is None,
    decreases rs.len(),
{
    if rs.len() > 0 {
        assert(forall|j: int| 0 <= j < rs.len() - 1 ==> #[trigger] rs.skip(1)[j] == rs[j + 1]);
        lemma_first_fit_none(rs.skip(1), size, align);
    }
}

/// The free list after carving `size` bytes at alignment `align` out of the
/// first fitting region: that region leaves the list, and a nonempty leftover
/// tail re-enters at the head.  At most one leftover piece survives per
/// allocation; nothing else moves.
pub open spec fn spec_alloc_regions(rs: Seq<ListNode>, size: int, align: int) -> Seq<ListNode> {
    match first_fit(rs, size, align) {
        Some(i) => {
            let n = rs[i];
            let end = fit_start(n, align) + size;
            let excess = n.spec_end() - end;
            if excess > 0 {
                rs.remove(i).insert(0, ListNode { addr: end as usize, size: excess as usize })
            } else {
                rs.remove(i)
            }
        },
        None => rs,
    }
}

/// A successful `first_fit` points at a fitting region and at no later one
/// than necessary.
pub proof fn lemma_first_fit_fits(rs: Seq<ListNode>, size: int, align: int)
    requires
        first_fit(rs, size, align) is Some,
    ensures
        ({
            let i = first_fit(rs, size, align)->Some_0;
            &&& 0 <= i < rs.len()
            &&& region_fits(rs[i], size, align)
            &&& forall|j: int| 0 <= j < i ==> !region_fits(#[trigger] rs[j], size, align)
        }),
    decreases rs.len(),
{
    if !region_fits(rs[0], size, align) {
        lemma_first_fit_fits(rs.skip(1), size, align);
        let i = first_fit(rs, size, align)->Some_0;
        let i1 = first_fit(rs.skip(1), size, align)->Some_0;
        assert(i == i1 + 1);
        assert(rs.skip(1)[i1] == rs[i]);
        assert forall|j: int| 0 <= j < i implies !region_fits(#[trigger] rs[j], size, align) by {
            if j > 0 {
                assert(rs.skip(1)[j - 1] == rs[j]);
                assert(!region_fits(rs.skip(1)[j - 1], size, align));
            }
        }
    }
}

/// Pointwise description of `Seq::remove`.
proof fn lemma_remove_pointwise(rs: Seq<ListNode>, i: int)
    requires
        0 <= i < rs.len(),
    ensures
        rs.remove(i).len() == rs.len() - 1,
        forall|j: int| 0 <= j < i ==> #[trigger] rs.remove(i)[j] == rs[j],
        forall|j: int| i <= j < rs.len() - 1 ==> #[trigger] rs.remove(i)[j] == rs[j + 1],
{
}

/// A range contained in one side of a disjoint pair is disjoint from the
/// other side.
proof fn lemma_subrange_disjoint(a1: int, s1: int, a2: int, s2: int, b: int, t: int)
    requires
        a2 <= a1,
        a1 + s1 <= a2 + s2,
        ranges_disjoint(a2, s2, b, t),
    ensures
        ranges_disjoint(a1, s1, b, t),
{
}

/// Removing a region keeps the list well-formed.
proof fn lemma_regions_wf_remove(rs: Seq<ListNode>, i: int)
    requires
        regions_wf(rs),
        0 <= i < rs.len(),
    ensures
        regions_wf(rs.remove(i)),
{
    lemma_remove_pointwise(rs, i);
    let post = rs.remove(i);
    assert forall|j: int| 0 <= j < post.len() implies node_wf(#[trigger] post[j]) by {
        if j < i {
            assert(post[j] == rs[j]);
        } else {
            assert(post[j] == rs[j + 1]);
        }
    }
    assert forall|j: int, k: int|
        0 <= j < post.len() && 0 <= k < post.len() && j != k implies ranges_disjoint(
        (#[trigger] post[j]).addr as int,
        post[j].size as int,
        (#[trigger] post[k]).addr as int,
        post[k].size as int,
    ) by {
        let j0: int = if j < i { j } else { j + 1 };
        let k0: int = if k < i { k } else { k + 1 };
        assert(post[j] == rs[j0]);
        assert(post[k] == rs[k0]);
    }
}

/// A block of live (allocated) memory, as `(start address, byte length)`.
/// Both are mathematical integers; the exec code only ever inserts values
/// that fit the machine word.
pub open spec fn block_wf(b: (int, int)) -> bool {
    &&& 0 <= b.0
    &&& b.0 % (NODE_ALIGN as int) == 0
    &&& b.1 >= NODE_SIZE
    &&& b.0 + b.1 <= usize::MAX
}

/// The free-list allocator.  `free` is the model of the intrusive list
/// (index 0 is the node right behind the sentinel head, where insertion
/// happens); `allocated` is the ghost set of live blocks handed out and not
/// yet returned.
pub struct LinkedListAllocator {
    free: Vec<ListNode>,
    allocated: Ghost<Set<(int, int)>>,
}

impl LinkedListAllocator {
    /// The free regions, in list order.
    pub closed spec fn regions(&self) -> Seq<ListNode> {
        self.free@
    }

    /// The live allocations.
    pub closed spec fn live(&self) -> Set<(int, int)> {
        self.allocated@
    }

    /// The allocator's invariant: free regions are well-formed and mutually
    /// disjoint, live blocks are well-formed and mutually disjoint, and no
    /// free byte is also a live byte.
    pub open spec fn inv(&self) -> bool {
        &&& regions_wf(self.regions())
        &&& forall|b: (int, int)| self.live().contains(b) ==> block_wf(b)
        &&& forall|b1: (int, int), b2: (int, int)|
            #[trigger] self.live().contains(b1) && #[trigger] self.live().contains(b2) && b1 != b2
                ==> ranges_disjoint(b1.0, b1.1, b2.0, b2.1)
        &&& forall|i: int, b: (int, int)|
            0 <= i < self.regions().len() && #[trigger] self.live().contains(b)
                ==> ranges_disjoint(
                (#[trigger] self.regions()[i]).addr as int,
                self.regions()[i].size as int,
                b.0,
                b.1,
            )
    }

    /// Create a new empty linked list allocator.
    pub fn new() -> (a: LinkedListAllocator)
        ensures
            a.regions() == Seq::<ListNode>::empty(),
            a.live() == Set::<(int, int)>::empty(),
            a.inv(),
    {
        let a = LinkedListAllocator { free: Vec::new(), allocated: Ghost(Set::empty()) };
        proof {
            assert(a.regions() =~= Seq::<ListNode>::empty());
        }
        a
    }

    /// Add a new free region to the front of the list.
    ///
    /// The caller guarantees what the kernel's unsafe variant asserted —
    /// a header-aligned start and room for a header — and, since the list
    /// is the memory, that the region overlaps no region already listed.
    pub fn add_free_region(&mut self, addr: usize, size: usize)
        requires
            addr as int % (NODE_ALIGN as int) == 0,
            size >= NODE_SIZE,
            addr + size <= usize::MAX,
            regions_wf(old(self).regions()),
            forall|i: int|
                0 <= i < old(self).regions().len() ==> ranges_disjoint(
                    addr as int,
                    size as int,
                    (#[trigger] old(self).regions()[i]).addr as int,
                    old(self).regions()[i].size as int,
                ),
        ensures
            final(self).regions() == old(self).regions().insert(0, (ListNode { addr, size })),
            final(self).live() == old(self).live(),
            regions_wf(final(self).regions()),
    {
        let node = ListNode::new(addr, size);
        self.free.insert(0, node);
        proof {
            let rs = old(self).regions();
            let post = self.regions();
            assert forall|i: int| 0 <= i < post.len() implies node_wf(#[trigger] post[i]) by {
                if i > 0 {
                    assert(post[i] == rs[i - 1]);
                }
            }
            assert forall|i: int, j: int|
                0 <= i < post.len() && 0 <= j < post.len() && i != j implies ranges_disjoint(
                (#[trigger] post[i]).addr as int,
                post[i].size as int,
                (#[trigger] post[j]).addr as int,
                post[j].size as int,
            ) by {
                if i > 0 && j > 0 {
                    assert(post[i] == rs[i - 1]);
                    assert(post[j] == rs[j - 1]);
                } else if i == 0 {
                    assert(post[j] == rs[j - 1]);
                } else {
                    assert(post[i] == rs[i - 1]);
                }
            }
        }
    }

    /// Initialize the allocator with the given heap bounds.
    ///
    /// The caller guarantees that the range is mapped, writable and unused,
    /// and that this is called exactly once, before any allocation.
    pub fn init(&mut self, heap_start: usize, heap_size: usize)
        requires
            old(self).regions() == Seq::<ListNode>::empty(),
            old(self).live() == Set::<(int, int)>::empty(),
            heap_start as int % (NODE_ALIGN as int) == 0,
            heap_size >= NODE_SIZE,
            heap_start + heap_size <= usize::MAX,
        ensures
            final(self).regions() == seq![(ListNode { addr: heap_start, size: heap_size })],
            final(self).live() == old(self).live(),
            final(self).inv(),
    {
        self.add_free_region(heap_start, heap_size);
        proof {
            assert(self.regions() =~= seq![(ListNode { addr: heap_start, size: heap_size })]);
        }
    }

    /// Adjust a requested layout so that the allocated region can later be
    /// turned back into a free region hosting a header: round the alignment
    /// up to the header alignment, and the size up to a multiple of that
    /// alignment and to at least the header size.
    pub fn size_align(size: usize, align: usize) -> (r: (usize, usize))
        requires
            align >= 1,
            spec_align_up(size as int, padded_align(align as int)) <= usize::MAX,
        ensures
            r.0 == padded_size(size as int, align as int),
            r.1 == padded_align(align as int),
    {
        let a = if align < NODE_ALIGN {
            NODE_ALIGN
        } else {
            align
        };
        let s0 = align_up(size, a);
        let s = if s0 < NODE_SIZE {
            NODE_SIZE
        } else {
            s0
        };
        (s, a)
    }

    /// Try to use the given region for an allocation with given size and
    /// alignment.
    ///
    /// Returns the allocation start address exactly when the region fits
    /// the request under the tail policy of [`region_fits`].
    pub fn alloc_from_region(region: &ListNode, size: usize, align: usize) -> (r: Result<
        usize,
        (),
    >)
        requires
            align >= 1,
            node_wf(*region),
        ensures
            match r {
                Ok(start) => region_fits(*region, size as int, align as int) && start == fit_start(
                    *region,
                    align as int,
                ),
                Err(_) => !region_fits(*region, size as int, align as int),
            },
    {
        proof {
            lemma_align_up(region.addr as int, align as int);
            lemma_mod_decreases(region.addr as nat, align as nat);
        }
        // aligned start of the allocation; a wrapped address can never fit
        let rem = region.addr % align;
        let alloc_start = if rem == 0 {
            region.addr
        } else {
            match (region.addr - rem).checked_add(align) {
                Some(s) => s,
                None => {
                    return Err(());
                },
            }
        };
        // end of the allocation; again a wrap means the region is too small
        let alloc_end = match alloc_start.checked_add(size) {
            Some(e) => e,
            None => {
                return Err(());
            },
        };
        if alloc_end > region.end_addr() {
            // region is too small for the desired allocation
            return Err(());
        }
        // check that the leftover tail can host a header of its own
        let excess_size = region.end_addr() - alloc_end;
        if excess_size > 0 && excess_size < NODE_SIZE {
            return Err(());
        }
        Ok(alloc_start)
    }

    /// Look for the first free region that fits the given size and
    /// alignment, and remove it from the list.
    ///
    /// Returns the removed node and the start address of the allocation.
    pub fn find_region(&mut self, size: usize, align: usize) -> (r: Option<(ListNode, usize)>)
        requires
            align >= 1,
            regions_wf(old(self).regions()),
        ensures
            final(self).live() == old(self).live(),
            match first_fit(old(self).regions(), size as int, align as int) {
                Some(i) => {
                    &&& r == Some(
                        (
                            old(self).regions()[i],
                            fit_start(old(self).regions()[i], align as int) as usize,
                        ),
                    )
                    &&& final(self).regions() == old(self).regions().remove(i)
                },
                None => r is None && final(self).regions() == old(self).regions(),
            },
    {
        let ghost rs = self.regions();
        let mut idx: usize = 0;
        // iterate over the list until a large enough region turns up
        while idx < self.free.len()
            invariant
                align >= 1,
                regions_wf(rs),
                idx <= rs.len(),
                rs == old(self).regions(),
                self.regions() == rs,
                self.live() == old(self).live(),
                forall|j: int| 0 <= j < idx ==> !region_fits(#[trigger] rs[j], size as int, align as int),
            decreases rs.len() - idx,
        {
            let node = self.free[idx];
            match Self::alloc_from_region(&node, size, align) {
                Ok(alloc_start) => {
                    // region suitable for allocation: detach it from the list
                    let node = self.free.remove(idx);
                    proof {
                        lemma_first_fit_at(rs, size as int, align as int, idx as int);
                        lemma_align_up(node.addr as int, align as int);
                    }
                    return Some((node, alloc_start));
                },
                Err(_) => {
                    // region not suitable: move on to the next region
                    idx = idx + 1;
                },
            }
        }
        // no suitable region
        proof {
            lemma_first_fit_none(rs, size as int, align as int);
        }
        None
    }

    /// Allocate `size` bytes at alignment `align` (a power of two).
    ///
    /// The request is first padded by [`Self::size_align`]; the first free
    /// region that fits it is detached, a nonzero leftover tail re-enters the
    /// list at the head, and the aligned start address is returned.  When no
    /// region fits, the request fails and nothing changes.  A returned block
    /// honours the requested alignment and overlaps no live allocation.
    pub fn allocate(&mut self, size: usize, align: usize) -> (r: Option<usize>)
        requires
            old(self).inv(),
            align >= 1,
            is_power_of_two(align as int),
            spec_align_up(size as int, padded_align(align as int)) <= usize::MAX,
        ensures
            final(self).inv(),
            final(self).regions() == spec_alloc_regions(
                old(self).regions(),
                padded_size(size as int, align as int),
                padded_align(align as int),
            ),
            match first_fit(
                old(self).regions(),
                padded_size(size as int, align as int),
                padded_align(align as int),
            ) {
                Some(i) => {
                    let p = fit_start(old(self).regions()[i], padded_align(align as int));
                    let s = padded_size(size as int, align as int);
                    &&& r == Some(p as usize)
                    &&& p % (align as int) == 0
                    &&& final(self).live() == old(self).live().insert((p, s))
                    &&& forall|b: (int, int)|
                        old(self).live().contains(b) ==> ranges_disjoint(p, s, b.0, b.1)
                },
                None => r is None && final(self).live() == old(self).live(),
            },
    {
        let ghost rs0 = self.regions();
        let ghost live0 = self.live();
        proof {
            lemma_padded_align_divides(align as int);
        }
        let (s, a) = Self::size_align(size, align);
        match self.find_region(s, a) {
            Some((region, alloc_start)) => {
                let ghost i = first_fit(rs0, s as int, a as int)->Some_0;
                let ghost p = fit_start(rs0[i], a as int);
                let ghost blk = (p, s as int);
                proof {
                    lemma_first_fit_fits(rs0, s as int, a as int);
                    lemma_remove_pointwise(rs0, i);
                    lemma_regions_wf_remove(rs0, i);
                    // the aligned start stays inside the region
                    lemma_align_up(region.addr as int, a as int);
                    assert(alloc_start == p);
                    // the start is aligned for the caller and for a header
                    lemma_divides_trans(p, a as int, align as int);
                    lemma_divides_trans(p, a as int, NODE_ALIGN as int);
                    // the padded size is a multiple of the header alignment
                    lemma_align_up(size as int, a as int);
                    if padded_size(size as int, align as int) != NODE_SIZE as int {
                        lemma_divides_trans(s as int, a as int, NODE_ALIGN as int);
                    }
                    // so the end of the allocation is header-aligned too
                    lemma_add_mod_noop(p, s as int, NODE_ALIGN as int);
                }
                let alloc_end = alloc_start + s;
                let excess_size = region.end_addr() - alloc_end;
                if excess_size > 0 {
                    proof {
                        // the leftover tail lies inside the detached region,
                        // which is disjoint from every region still listed
                        assert forall|j: int|
                            0 <= j < self.regions().len() implies ranges_disjoint(
                            alloc_end as int,
                            excess_size as int,
                            (#[trigger] self.regions()[j]).addr as int,
                            self.regions()[j].size as int,
                        ) by {
                            let j0: int = if j < i {
                                j
                            } else {
                                j + 1
                            };
                            assert(self.regions()[j] == rs0[j0]);
                            lemma_subrange_disjoint(
                                alloc_end as int,
                                excess_size as int,
                                region.addr as int,
                                region.size as int,
                                rs0[j0].addr as int,
                                rs0[j0].size as int,
                            );
                        }
                    }
                    self.add_free_region(alloc_end, excess_size);
                }
                self.allocated = Ghost(live0.insert(blk));
                proof {
                    Self::lemma_alloc_restores_inv(
                        *old(self),
                        *self,
                        rs0,
                        live0,
                        i,
                        blk,
                        s as int,
                        a as int,
                    );
                }
                Some(alloc_start)
            },
            None => None,
        }
    }

    /// The state after a successful carve satisfies the invariant.
    proof fn lemma_alloc_restores_inv(
        pre: LinkedListAllocator,
        post: LinkedListAllocator,
        rs0: Seq<ListNode>,
        live0: Set<(int, int)>,
        i: int,
        blk: (int, int),
        s: int,
        a: int,
    )
        requires
            pre.inv(),
            rs0 == pre.regions(),
            live0 == pre.live(),
            0 <= i < rs0.len(),
            blk.0 == fit_start(rs0[i], a),
            blk.1 == s,
            s >= NODE_SIZE,
            blk.0 % (NODE_ALIGN as int) == 0,
            rs0[i].addr <= blk.0,
            blk.0 + s <= rs0[i].spec_end(),
            post.live() == live0.insert(blk),
            ({
                let end = blk.0 + s;
                let excess = rs0[i].spec_end() - end;
                post.regions() == if excess > 0 {
                    rs0.remove(i).insert(0, ListNode { addr: end as usize, size: excess as usize })
                } else {
                    rs0.remove(i)
                }
            }),
            regions_wf(post.regions()),
        ensures
            post.inv(),
            forall|b: (int, int)| live0.contains(b) ==> ranges_disjoint(blk.0, blk.1, b.0, b.1),
    {
        lemma_remove_pointwise(rs0, i);
        let n = rs0[i];
        let end = blk.0 + s;
        let excess = n.spec_end() - end;
        // the new block lies inside the detached region, so it is disjoint
        // from every old live block and every remaining free region
        assert forall|b: (int, int)| live0.contains(b) implies ranges_disjoint(
            blk.0,
            blk.1,
            b.0,
            b.1,
        ) by {
            assert(ranges_disjoint(n.addr as int, n.size as int, b.0, b.1));
            lemma_subrange_disjoint(blk.0, blk.1, n.addr as int, n.size as int, b.0, b.1);
        }
        assert forall|b: (int, int)| post.live().contains(b) implies block_wf(b) by {
            if b != blk {
                assert(live0.contains(b));
            }
        }
        assert forall|b1: (int, int), b2: (int, int)|
            #[trigger] post.live().contains(b1) && #[trigger] post.live().contains(b2) && b1 != b2
                implies ranges_disjoint(b1.0, b1.1, b2.0, b2.1) by {
            if b1 == blk {
                assert(live0.contains(b2));
            } else if b2 == blk {
                assert(live0.contains(b1));
            } else {
                assert(live0.contains(b1));
                assert(live0.contains(b2));
            }
        }
        assert forall|j: int, b: (int, int)|
            0 <= j < post.regions().len() && #[trigger] post.live().contains(b)
                implies ranges_disjoint(
            (#[trigger] post.regions()[j]).addr as int,
            post.regions()[j].size as int,
            b.0,
            b.1,
        ) by {
            let node = post.regions()[j];
            if excess > 0 && j == 0 {
                // the leftover tail: inside the detached region, and bumping
                // against the new block end to start
                if b == blk {
                } else {
                    assert(live0.contains(b));
                    lemma_subrange_disjoint(
                        node.addr as int,
                        node.size as int,
                        n.addr as int,
                        n.size as int,
                        b.0,
                        b.1,
                    );
                }
            } else {
                // a region the carve did not touch
                let j1: int = if excess > 0 {
                    j - 1
                } else {
                    j
                };
                let j0: int = if j1 < i {
                    j1
                } else {
                    j1 + 1
                };
                assert(node == rs0[j0]);
                if b == blk {
                    lemma_subrange_disjoint(
                        blk.0,
                        blk.1,
                        n.addr as int,
                        n.size as int,
                        node.addr as int,
                        node.size as int,
                    );
                } else {
                    assert(live0.contains(b));
                }
            }
        }
    }

    /// Return an allocated block to the allocator.
    ///
    /// The padded size and alignment are recomputed exactly as `alloc`
    /// computed them, and the freed region enters the free list at the head.
    /// No coalescing with adjacent free regions is attempted: that the list
    /// may keep several physically adjacent regions is a documented design
    /// limitation of this allocator.
    pub fn deallocate(&mut self, ptr: usize, size: usize, align: usize)
        requires
            old(self).inv(),
            align >= 1,
            spec_align_up(size as int, padded_align(align as int)) <= usize::MAX,
            old(self).live().contains(
                (ptr as int, padded_size(size as int, align as int)),
            ),
        ensures
            final(self).inv(),
            final(self).regions() == old(self).regions().insert(
                0,
                (ListNode { addr: ptr, size: padded_size(size as int, align as int) as usize }),
            ),
            final(self).live() == old(self).live().remove(
                (ptr as int, padded_size(size as int, align as int)),
            ),
    {
        let ghost rs0 = self.regions();
        let ghost live0 = self.live();
        let (s, _a) = Self::size_align(size, align);
        let ghost blk = (ptr as int, s as int);
        proof {
            // the block was handed out by `alloc`, so it is header-aligned,
            // large enough for a header, and disjoint from everything else
            assert(block_wf(blk));
        }
        self.allocated = Ghost(live0.remove(blk));
        self.add_free_region(ptr, s);
        proof {
            let post = self.regions();
            assert forall|b: (int, int)| self.live().contains(b) implies block_wf(b) by {
                assert(live0.contains(b));
            }
            assert forall|j: int, b: (int, int)|
                0 <= j < post.len() && #[trigger] self.live().contains(b) implies ranges_disjoint(
                (#[trigger] post[j]).addr as int,
                post[j].size as int,
                b.0,
                b.1,
            ) by {
                assert(live0.contains(b) && b != blk);
                if j > 0 {
                    assert(post[j] == rs0[j - 1]);
                }
            }
        }
    }
}

/// Total number of free bytes the allocator tracks.
pub open spec fn total_free(rs: Seq<ListNode>) -> int
    decreases rs.len(),
{
    if rs.len() == 0 {
        0
    } else {
        rs[0].size + total_free(rs.skip(1))
    }
}

proof fn lemma_total_free_remove(rs: Seq<ListNode>, i: int)
    requires
        0 <= i < rs.len(),
    ensures
        total_free(rs.remove(i)) == total_free(rs) - rs[i].size,
    decreases i,
{
    if i == 0 {
        assert(rs.remove(0) =~= rs.skip(1));
    } else {
        lemma_remove_pointwise(rs, i);
        assert(rs.remove(i)[0] == rs[0]);
        assert(rs.remove(i).skip(1) =~= rs.skip(1).remove(i - 1)) by {
            lemma_remove_pointwise(rs.skip(1), i - 1);
        }
        lemma_total_free_remove(rs.skip(1), i - 1);
        assert(rs.skip(1)[i - 1] == rs[i]);
    }
}

proof fn lemma_total_free_insert_head(rs: Seq<ListNode>, n: ListNode)
    ensures
        total_free(rs.insert(0, n)) == n.size + total_free(rs),
{
    assert(rs.insert(0, n)[0] == n);
    assert(rs.insert(0, n).skip(1) =~= rs);
}

/// Law (no overlap): under the allocator's invariant, two distinct live
/// allocations never share a byte.  Together with `allocate`'s contract —
/// the returned block is aligned as requested, is carved out of free memory
/// only, and joins the live set — this holds across any sequence of
/// `allocate` and `deallocate` calls.
pub proof fn lemma_live_blocks_disjoint(al: &LinkedListAllocator, b1: (int, int), b2: (int, int))
    requires
        al.inv(),
        al.live().contains(b1),
        al.live().contains(b2),
        b1 != b2,
    ensures
        ranges_disjoint(b1.0, b1.1, b2.0, b2.1),
{
}

/// The padded request is never smaller than the request, nor than a header.
pub proof fn lemma_padded_size_at_least(size: int, align: int)
    requires
        size >= 0,
        is_power_of_two(align),
    ensures
        padded_size(size, align) >= size,
        padded_size(size, align) >= NODE_SIZE,
{
    lemma_padded_align_divides(align);
    lemma_align_up(size, padded_align(align));
}

/// Law (exhaustion): a request larger than every free region finds no fit,
/// so `allocate` fails and leaves the free list unchanged.
pub proof fn lemma_exhaustion(rs: Seq<ListNode>, size: int, align: int)
    requires
        align >= 1,
        forall|i: int| 0 <= i < rs.len() ==> (#[trigger] rs[i]).size < size,
    ensures
        first_fit(rs, size, align) is None,
        spec_alloc_regions(rs, size, align) == rs,
{
    assert forall|i: int| 0 <= i < rs.len() implies !region_fits(#[trigger] rs[i], size, align) by {
        lemma_align_up(rs[i].addr as int, align);
    }
    lemma_first_fit_none(rs, size, align);
}

/// Law (fragmentation policy): a region whose leftover tail would be a
/// sliver — nonempty but too small to host a header — is rejected even
/// though the request itself would fit inside it.
pub proof fn lemma_undersized_tail_rejected(n: ListNode, size: int, align: int)
    requires
        0 < n.spec_end() - (fit_start(n, align) + size) < NODE_SIZE,
    ensures
        !region_fits(n, size, align),
{
}

/// Law (conservation, no coalescing): allocating a block and then freeing it
/// at once restores the total tracked free memory, short of any front
/// padding the alignment forced inside the chosen region; the total never
/// grows.  The freed region re-enters as its own node — nothing merges.
pub proof fn lemma_allocate_deallocate_conserves(rs: Seq<ListNode>, size: int, align: int)
    requires
        regions_wf(rs),
        size >= 0,
        is_power_of_two(align),
        first_fit(rs, padded_size(size, align), padded_align(align)) is Some,
    ensures
        ({
            let s = padded_size(size, align);
            let a = padded_align(align);
            let i = first_fit(rs, s, a)->Some_0;
            let p = fit_start(rs[i], a);
            let after = spec_alloc_regions(rs, s, a).insert(
                0,
                ListNode { addr: p as usize, size: s as usize },
            );
            &&& total_free(after) == total_free(rs) - (p - rs[i].addr)
            &&& total_free(after) <= total_free(rs)
        }),
{
    let s = padded_size(size, align);
    let a = padded_align(align);
    let i = first_fit(rs, s, a)->Some_0;
    lemma_padded_align_divides(align);
    lemma_padded_size_at_least(size, align);
    lemma_first_fit_fits(rs, s, a);
    let n = rs[i];
    let p = fit_start(n, a);
    lemma_align_up(n.addr as int, a);
    let end = p + s;
    let excess = n.spec_end() - end;
    let rs1 = spec_alloc_regions(rs, s, a);
    lemma_total_free_remove(rs, i);
    if excess > 0 {
        lemma_total_free_insert_head(
            rs.remove(i),
            ListNode { addr: end as usize, size: excess as usize },
        );
    }
    lemma_total_free_insert_head(rs1, ListNode { addr: p as usize, size: s as usize });
}

/// Law (reuse under first-fit-at-head ordering): a freed block re-enters at
/// the head of the list, so the next request with the same alignment and no
/// larger padded size is served from it, at the very same address — provided
/// the difference of the two padded sizes is no unusable sliver.
pub proof fn lemma_freed_head_reused(rs: Seq<ListNode>, p: int, s_old: int, s_new: int, a: int)
    requires
        a >= 1,
        0 <= p,
        p % a == 0,
        p + s_old <= usize::MAX,
        0 <= s_new <= s_old,
        s_new == s_old || s_old - s_new >= NODE_SIZE,
        rs.len() > 0,
        rs[0] == (ListNode { addr: p as usize, size: s_old as usize }),
    ensures
        first_fit(rs, s_new, a) == Some(0int),
        fit_start(rs[0], a) == p,
{
    assert(spec_align_up(p, a) == p);
}

} // verus!
