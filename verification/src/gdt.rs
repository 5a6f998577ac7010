//! Model of the global descriptor table and the task state segment.
//!
//! The kernel builds one descriptor table holding a kernel code segment and a
//! task-state-segment descriptor, and a TSS whose interrupt stack table wires
//! a dedicated, statically allocated stack into the double-fault slot.  This
//! module fixes those values and their contracts; loading the table into the
//! CPU and reloading the segment registers is privileged work left to the
//! unverified shell around this crate.

use vstd::prelude::*;

verus! {

/// Interrupt-stack-table slot reserved for the double-fault handler.
pub const DOUBLE_FAULT_IST_INDEX: u16 = 0;

/// Byte length of the dedicated double-fault stack (a few pages, static
/// lifetime, never reused for anything else).
pub const DOUBLE_FAULT_STACK_SIZE: usize = 4096 * 5;

/// Number of interrupt-stack-table slots the hardware provides.
pub const IST_ENTRY_COUNT: usize = 7;

/// Model of the task state segment: per-slot alternate stack tops.  A filled
/// slot holds the address one past the stack's highest byte, since the stack
/// grows downward.
pub struct TaskStateSegment {
    interrupt_stack_table: Vec<Option<usize>>,
}

impl View for TaskStateSegment {
    type V = Seq<Option<usize>>;

    closed spec fn view(&self) -> Seq<Option<usize>> {
        self.interrupt_stack_table@
    }
}

impl TaskStateSegment {
    /// A TSS with every alternate-stack slot empty.
    pub fn new() -> (tss: TaskStateSegment)
        ensures
            tss@.len() == IST_ENTRY_COUNT,
            forall|i: int| 0 <= i < IST_ENTRY_COUNT ==> tss@[i] is None,
    {
        let mut table: Vec<Option<usize>> = Vec::new();
        let mut i: usize = 0;
        while i < IST_ENTRY_COUNT
            invariant
                i <= IST_ENTRY_COUNT,
                table@.len() == i,
                forall|j: int| 0 <= j < i ==> table@[j] is None,
            decreases IST_ENTRY_COUNT - i,
        {
            table.push(None);
            i = i + 1;
        }
        TaskStateSegment { interrupt_stack_table: table }
    }

    /// The stack top the given slot holds, if any.
    pub fn ist_entry(&self, index: u16) -> (e: Option<usize>)
        requires
            (index as int) < self@.len(),
        ensures
            e == self@[index as int],
    {
        self.interrupt_stack_table[index as usize]
    }

    /// Point the given interrupt-stack-table slot at a stack that starts at
    /// `stack_start` and is `stack_size` bytes long: the slot receives the
    /// stack's top end.
    pub fn set_stack(&mut self, index: u16, stack_start: usize, stack_size: usize)
        requires
            (index as int) < old(self)@.len(),
            stack_start + stack_size <= usize::MAX,
        ensures
            final(self)@ == old(self)@.update(index as int, Some((stack_start + stack_size) as usize)),
    {
        let top = stack_start + stack_size;
        self.interrupt_stack_table.set(index as usize, Some(top));
    }
}

/// Build the TSS the kernel boots with: only the double-fault slot is
/// filled, with the top of the dedicated static stack.
pub fn double_fault_tss(stack_start: usize) -> (tss: TaskStateSegment)
    requires
        stack_start + DOUBLE_FAULT_STACK_SIZE <= usize::MAX,
    ensures
        tss@.len() == IST_ENTRY_COUNT,
        tss@[DOUBLE_FAULT_IST_INDEX as int] == Some(
            (stack_start + DOUBLE_FAULT_STACK_SIZE) as usize,
        ),
        forall|i: int|
            0 <= i < IST_ENTRY_COUNT && i != DOUBLE_FAULT_IST_INDEX ==> tss@[i] is None,
{
    let mut tss = TaskStateSegment::new();
    tss.set_stack(DOUBLE_FAULT_IST_INDEX, stack_start, DOUBLE_FAULT_STACK_SIZE);
    tss
}

/// The kinds of descriptor the kernel's table holds.
#[derive(Debug, Clone, Copy, PartialEq, Eq, Structural)]
pub enum DescriptorKind {
    /// An executable kernel code segment.
    KernelCode,
    /// A descriptor pointing at the task state segment.
    TaskState,
}

/// The two selectors the bring-up sequence needs after loading the table:
/// each is the table slot of its descriptor (slot 0 is the mandatory null
/// descriptor, so real entries start at 1).
#[derive(Debug, Clone, Copy, PartialEq, Eq, Structural)]
pub struct Selectors {
    pub code_selector: usize,
    pub tss_selector: usize,
}

/// Model of the global descriptor table: the descriptors added after the
/// null slot, in order.  Built once at startup and immutable after load.
pub struct GlobalDescriptorTable {
    entries: Vec<DescriptorKind>,
}

/// Hardware capacity of the table, the null descriptor included.
pub const GDT_ENTRY_COUNT: usize = 8;

impl View for GlobalDescriptorTable {
    type V = Seq<DescriptorKind>;

    closed spec fn view(&self) -> Seq<DescriptorKind> {
        self.entries@
    }
}

impl GlobalDescriptorTable {
    /// An empty table (only the implicit null descriptor).
    pub fn new() -> (gdt: GlobalDescriptorTable)
        ensures
            gdt@ == Seq::<DescriptorKind>::empty(),
    {
        let gdt = GlobalDescriptorTable { entries: Vec::new() };
        proof {
            assert(gdt@ =~= Seq::<DescriptorKind>::empty());
        }
        gdt
    }

    /// Number of descriptors added after the null slot.
    pub fn len(&self) -> (n: usize)
        ensures
            n == self@.len(),
    {
        self.entries.len()
    }

    /// The descriptor at the given position (0-based, the null slot not
    /// counted).
    pub fn descriptor(&self, index: usize) -> (d: DescriptorKind)
        requires
            (index as int) < self@.len(),
        ensures
            d == self@[index as int],
    {
        self.entries[index]
    }

    /// Append a descriptor and return its selector slot.
    pub fn add_entry(&mut self, descriptor: DescriptorKind) -> (selector: usize)
        requires
            old(self)@.len() + 1 < GDT_ENTRY_COUNT,
        ensures
            final(self)@ == old(self)@.push(descriptor),
            selector == old(self)@.len() + 1,
    {
        self.entries.push(descriptor);
        self.entries.len()
    }
}

/// Build the descriptor table the kernel boots with — a kernel code segment
/// and a TSS descriptor — and hand back the selectors for both.
pub fn build_gdt() -> (r: (GlobalDescriptorTable, Selectors))
    ensures
        r.0@ == seq![DescriptorKind::KernelCode, DescriptorKind::TaskState],
        r.1 == (Selectors { code_selector: 1, tss_selector: 2 }),
{
    let mut gdt = GlobalDescriptorTable::new();
    let code_selector = gdt.add_entry(DescriptorKind::KernelCode);
    let tss_selector = gdt.add_entry(DescriptorKind::TaskState);
    proof {
        assert(gdt@ =~= seq![DescriptorKind::KernelCode, DescriptorKind::TaskState]);
    }
    (gdt, Selectors { code_selector, tss_selector })
}

} // verus!
