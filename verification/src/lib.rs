//! Bring-up core of a small x86 kernel: a first-fit free-list heap allocator,
//! descriptor-table and task-state-segment configuration, an exception and
//! hardware-interrupt vector table, and a chained-interrupt-controller driver
//! model, all with machine-checked contracts.
//!
//! Everything that touches the hardware itself (port reads and writes, table
//! loads, the memory-mapped text buffer) lives outside this crate; this crate
//! fixes the policies and the bookkeeping and proves them correct.

use vstd::prelude::*;

pub mod allocator;
pub mod gdt;
pub mod interrupts;
pub mod vga_buffer;

verus! {

/// Exit codes reported to the test harness port when a diagnostic build of
/// the kernel shuts down.
#[derive(Debug, Clone, Copy, PartialEq, Eq, Structural)]
pub enum QemuExitCode {
    Success,
    Failed,
}

impl QemuExitCode {
    /// The raw code written to the harness port for this outcome.
    pub open spec fn spec_code(self) -> u32 {
        match self {
            QemuExitCode::Success => 0x10,
            QemuExitCode::Failed => 0x11,
        }
    }

    pub fn as_u32(self) -> (code: u32)
        ensures
            code == self.spec_code(),
    {
        match self {
            QemuExitCode::Success => 0x10,
            QemuExitCode::Failed => 0x11,
        }
    }
}

/// Anything a diagnostic build can run as one test.  The shell implements
/// this for its test functions (printing the test's name around the run);
/// nothing is assumed of `run` here — a test that fails panics, and a panic
/// never reaches the end of `test_runner`.
pub trait Testable {
    fn run(&self);
}

/// Run every test in order; reaching the end means all of them passed, so
/// the outcome to report to the harness is success.
pub fn test_runner<T: Testable>(tests: &[T]) -> (code: QemuExitCode)
    ensures
        code == QemuExitCode::Success,
{
    let n = tests.len();
    let mut i: usize = 0;
    while i < n
        invariant
            n == tests.len(),
            i <= n,
        decreases n - i,
    {
        let test = vstd::slice::slice_index_get(tests, i);
        test.run();
        i = i + 1;
    }
    QemuExitCode::Success
}

/// The stages of kernel bring-up, in the only order that is safe: the
/// descriptor table (with the double-fault stack) must be in place before
/// the vector table that names its stack slot; the controller must be
/// remapped after the vector table is loaded and before interrupts are
/// enabled.
#[derive(Debug, Clone, Copy, PartialEq, Eq, Structural)]
pub enum BootPhase {
    Start,
    GdtInstalled,
    VectorsInstalled,
    ControllerInitialized,
    InterruptsEnabled,
}

/// The bring-up sequencer: a witness that the stages happen once each and in
/// order.  The shell advances it beside each privileged step it performs.
pub struct BootSequence {
    phase: BootPhase,
}

impl BootSequence {
    /// The stage reached so far.
    pub closed spec fn phase(&self) -> BootPhase {
        self.phase
    }

    pub fn new() -> (b: BootSequence)
        ensures
            b.phase() == BootPhase::Start,
    {
        BootSequence { phase: BootPhase::Start }
    }

    /// The stage reached so far.
    pub fn current_phase(&self) -> (p: BootPhase)
        ensures
            p == self.phase(),
    {
        self.phase
    }

    /// The descriptor table and task state segment are loaded.
    pub fn gdt_installed(&mut self)
        requires
            old(self).phase() == BootPhase::Start,
        ensures
            final(self).phase() == BootPhase::GdtInstalled,
    {
        self.phase = BootPhase::GdtInstalled;
    }

    /// The vector table is loaded; it may name the double-fault stack slot
    /// only now that the task state segment defines it.
    pub fn vectors_installed(&mut self)
        requires
            old(self).phase() == BootPhase::GdtInstalled,
        ensures
            final(self).phase() == BootPhase::VectorsInstalled,
    {
        self.phase = BootPhase::VectorsInstalled;
    }

    /// The interrupt controller pair is remapped and initialized — after the
    /// vector table, so no line fires into an empty vector.
    pub fn controller_initialized(&mut self)
        requires
            old(self).phase() == BootPhase::VectorsInstalled,
        ensures
            final(self).phase() == BootPhase::ControllerInitialized,
    {
        self.phase = BootPhase::ControllerInitialized;
    }

    /// Interrupts are enabled; bring-up is complete.
    pub fn interrupts_enabled(&mut self)
        requires
            old(self).phase() == BootPhase::ControllerInitialized,
        ensures
            final(self).phase() == BootPhase::InterruptsEnabled,
    {
        self.phase = BootPhase::InterruptsEnabled;
    }
}

} // verus!
