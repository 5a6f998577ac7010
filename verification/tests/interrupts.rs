//! Tests of the interrupt layer: controller acknowledgement accounting, the
//! vector table's population, and scan-code decoding through the real
//! `pc_keyboard` crate.

use kernel_dev::interrupts::{
    HandlerKind, InterruptController, InterruptIndex, KeyPress, KeyboardState, VectorTable,
    keyboard_interrupt_handler, rtc_interrupt_handler, timer_interrupt_handler, BREAKPOINT_VECTOR,
    DOUBLE_FAULT_VECTOR, OVERFLOW_VECTOR, PAGE_FAULT_VECTOR, PIC_1_OFFSET, PIC_2_OFFSET,
};
use kernel_dev::gdt::DOUBLE_FAULT_IST_INDEX;
use pc_keyboard::KeyCode;

fn running_controller() -> InterruptController {
    let mut pics = InterruptController::new(PIC_1_OFFSET, PIC_2_OFFSET);
    pics.initialize();
    pics
}

#[test]
fn interrupt_index_vectors() {
    assert_eq!(InterruptIndex::Timer.as_u8(), 32);
    assert_eq!(InterruptIndex::Keyboard.as_u8(), 33);
    assert_eq!(InterruptIndex::RTC.as_u8(), 40);
    assert_eq!(InterruptIndex::Timer.as_usize(), 32);
    assert_eq!(InterruptIndex::Keyboard.as_usize(), 33);
}

#[test]
fn controller_starts_with_zero_acknowledgements() {
    let pics = InterruptController::new(PIC_1_OFFSET, PIC_2_OFFSET);
    for v in 0..=255u8 {
        assert_eq!(pics.ack_count(v), 0);
    }
}

#[test]
fn controller_serves_exactly_its_sixteen_lines() {
    let pics = running_controller();
    assert!(!pics.handles_interrupt(31));
    assert!(pics.handles_interrupt(32));
    assert!(pics.handles_interrupt(39));
    assert!(pics.handles_interrupt(40));
    assert!(pics.handles_interrupt(47));
    assert!(!pics.handles_interrupt(48));
    assert!(!pics.handles_interrupt(0));
}

#[test]
fn n_timer_interrupts_mean_n_timer_acknowledgements() {
    let mut pics = running_controller();
    for _ in 0..5 {
        let vector = timer_interrupt_handler(&mut pics);
        assert_eq!(vector, InterruptIndex::Timer.as_u8());
    }
    assert_eq!(pics.ack_count(InterruptIndex::Timer.as_u8()), 5);
    // and zero went to any unrelated line
    for v in 0..=255u8 {
        if v != InterruptIndex::Timer.as_u8() {
            assert_eq!(pics.ack_count(v), 0);
        }
    }
}

#[test]
fn each_handler_acknowledges_its_own_line() {
    let mut pics = running_controller();
    let mut keyboard = KeyboardState::new();
    timer_interrupt_handler(&mut pics);
    keyboard_interrupt_handler(&mut keyboard, &mut pics, 0x1E);
    rtc_interrupt_handler(&mut pics);
    assert_eq!(pics.ack_count(32), 1);
    assert_eq!(pics.ack_count(33), 1);
    assert_eq!(pics.ack_count(40), 1);
}

#[test]
fn keyboard_handler_decodes_a_letter() {
    let mut pics = running_controller();
    let mut keyboard = KeyboardState::new();
    // scan code 0x1E: the A key pressed
    let key = keyboard_interrupt_handler(&mut keyboard, &mut pics, 0x1E);
    match key {
        Some(KeyPress::Unicode(c)) => assert_eq!(c, 'a'),
        _ => panic!("expected a decoded 'a'"),
    }
    // 0x9E: the A key released — no character, but still an acknowledgement
    let key = keyboard_interrupt_handler(&mut keyboard, &mut pics, 0x9E);
    assert!(key.is_none());
    assert_eq!(pics.ack_count(33), 2);
}

#[test]
fn keyboard_handler_tracks_shift_state() {
    let mut pics = running_controller();
    let mut keyboard = KeyboardState::new();
    // left shift down (0x2A) surfaces as a raw key, then A decodes upper-case
    let key = keyboard_interrupt_handler(&mut keyboard, &mut pics, 0x2A);
    match key {
        Some(KeyPress::Raw(code)) => assert_eq!(code, KeyCode::LShift),
        _ => panic!("expected the raw shift key"),
    }
    let key = keyboard_interrupt_handler(&mut keyboard, &mut pics, 0x1E);
    match key {
        Some(KeyPress::Unicode(c)) => assert_eq!(c, 'A'),
        _ => panic!("expected a decoded 'A'"),
    }
}

#[test]
fn vector_table_population() {
    let table = VectorTable::new();
    let breakpoint = table.entry(BREAKPOINT_VECTOR).expect("breakpoint populated");
    assert_eq!(breakpoint.handler, HandlerKind::Breakpoint);
    assert_eq!(breakpoint.stack_index, None);
    let overflow = table.entry(OVERFLOW_VECTOR).expect("overflow populated");
    assert_eq!(overflow.handler, HandlerKind::Overflow);
    let page_fault = table.entry(PAGE_FAULT_VECTOR).expect("page fault populated");
    assert_eq!(page_fault.handler, HandlerKind::PageFault);
    let timer = table.entry(32).expect("timer populated");
    assert_eq!(timer.handler, HandlerKind::Timer);
    let keyboard = table.entry(33).expect("keyboard populated");
    assert_eq!(keyboard.handler, HandlerKind::Keyboard);
    // every other vector must fault predictably, not run garbage
    for v in 0..256 {
        if ![3, 4, 8, 14, 32, 33].contains(&v) {
            assert!(table.entry(v).is_none());
        }
    }
}

#[test]
fn double_fault_runs_on_its_own_stack_and_never_returns() {
    let table = VectorTable::new();
    let double_fault = table.entry(DOUBLE_FAULT_VECTOR).expect("double fault populated");
    assert_eq!(double_fault.handler, HandlerKind::DoubleFault);
    assert_eq!(double_fault.stack_index, Some(DOUBLE_FAULT_IST_INDEX));
    assert!(!double_fault.handler.resumes());
    assert!(!HandlerKind::PageFault.resumes());
    assert!(HandlerKind::Breakpoint.resumes());
    assert!(HandlerKind::Overflow.resumes());
}
