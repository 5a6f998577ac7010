//! Tests of the bring-up pieces: descriptor table and task state segment,
//! boot ordering, the test harness, and the text-output colour codes.

use std::cell::Cell;

use kernel_dev::gdt::{
    build_gdt, double_fault_tss, DescriptorKind, TaskStateSegment, DOUBLE_FAULT_IST_INDEX,
    DOUBLE_FAULT_STACK_SIZE, IST_ENTRY_COUNT,
};
use kernel_dev::vga_buffer::{Colour, ColourCode};
use kernel_dev::{test_runner, BootPhase, BootSequence, QemuExitCode, Testable};

#[test]
fn exit_codes() {
    assert_eq!(QemuExitCode::Success.as_u32(), 0x10);
    assert_eq!(QemuExitCode::Failed.as_u32(), 0x11);
}

struct Probe {
    hits: Cell<u32>,
}

impl Testable for Probe {
    fn run(&self) {
        self.hits.set(self.hits.get() + 1);
    }
}

#[test]
fn test_runner_runs_every_test_and_reports_success() {
    let tests = vec![Probe { hits: Cell::new(0) }, Probe { hits: Cell::new(0) }];
    let code = test_runner(&tests[..]);
    assert_eq!(code, QemuExitCode::Success);
    assert_eq!(tests[0].hits.get(), 1);
    assert_eq!(tests[1].hits.get(), 1);
}

#[test]
fn boot_sequence_order() {
    let mut boot = BootSequence::new();
    assert_eq!(boot.current_phase(), BootPhase::Start);
    boot.gdt_installed();
    assert_eq!(boot.current_phase(), BootPhase::GdtInstalled);
    boot.vectors_installed();
    assert_eq!(boot.current_phase(), BootPhase::VectorsInstalled);
    boot.controller_initialized();
    assert_eq!(boot.current_phase(), BootPhase::ControllerInitialized);
    boot.interrupts_enabled();
    assert_eq!(boot.current_phase(), BootPhase::InterruptsEnabled);
}

#[test]
fn fresh_tss_has_no_alternate_stacks() {
    let tss = TaskStateSegment::new();
    for i in 0..IST_ENTRY_COUNT as u16 {
        assert_eq!(tss.ist_entry(i), None);
    }
}

#[test]
fn double_fault_tss_fills_exactly_its_slot() {
    let stack_start = 0x10_0000;
    let tss = double_fault_tss(stack_start);
    assert_eq!(
        tss.ist_entry(DOUBLE_FAULT_IST_INDEX),
        Some(stack_start + DOUBLE_FAULT_STACK_SIZE)
    );
    for i in 0..IST_ENTRY_COUNT as u16 {
        if i != DOUBLE_FAULT_IST_INDEX {
            assert_eq!(tss.ist_entry(i), None);
        }
    }
}

#[test]
fn gdt_holds_code_then_task_state() {
    let (gdt, selectors) = build_gdt();
    assert_eq!(gdt.len(), 2);
    assert_eq!(gdt.descriptor(0), DescriptorKind::KernelCode);
    assert_eq!(gdt.descriptor(1), DescriptorKind::TaskState);
    assert_eq!(selectors.code_selector, 1);
    assert_eq!(selectors.tss_selector, 2);
}

#[test]
fn colour_codes_pack_background_high_foreground_low() {
    assert_eq!(ColourCode::new(Colour::Green, Colour::Black).0, 0x02);
    assert_eq!(ColourCode::new(Colour::White, Colour::Blue).0, 0x1F);
    assert_eq!(ColourCode::new(Colour::Yellow, Colour::Red).0, 0x4E);
    assert_eq!(Colour::Black.as_u8(), 0);
    assert_eq!(Colour::White.as_u8(), 15);
}
