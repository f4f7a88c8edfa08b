use aaos::idt::{
    acknowledges, decode_page_fault, init, init_idt, init_tss, outcome, Entry, Handler, Outcome,
    BREAKPOINT_VECTOR, DOUBLE_FAULT_IST_INDEX, DOUBLE_FAULT_VECTOR, PAGE_FAULT_VECTOR, STACK_SIZE,
};
use aaos::irq::{InterruptIndex, Irq, PIC_1_OFFSET, PIC_2_OFFSET};
use aaos::qemu::{exit_qemu, QemuExitCode};

#[test]
fn irq_vectors() {
    assert_eq!(Irq::Timer.as_u8(), 32);
    assert_eq!(Irq::Keyboard.as_u8(), 33);
    assert_eq!(Irq::Rtc.as_u8(), 40);
    assert_eq!(Irq::Rtc.as_usize(), 40);
    assert!(Irq::Rtc.is_on_slave());
    assert!(!Irq::Keyboard.is_on_slave());
    assert_eq!(InterruptIndex::Timer.as_usize(), PIC_1_OFFSET as usize);
    assert_eq!(InterruptIndex::Keyboard.as_u8(), 33);
    assert_eq!(PIC_2_OFFSET, PIC_1_OFFSET + 8);
}

#[test]
fn table_holds_exactly_the_kernel_handlers() {
    let t = init();
    let mut installed = 0;
    for v in 0..=255u8 {
        if let Some(e) = t.entry(v) {
            installed += 1;
            assert_eq!(e.stack_index.is_some(), v == DOUBLE_FAULT_VECTOR);
        }
    }
    assert_eq!(installed, 6);
    assert_eq!(t.entry(40), Some(Entry { handler: Handler::Rtc, stack_index: None }));
    assert_eq!(t.entry(PAGE_FAULT_VECTOR).map(|e| e.handler), Some(Handler::PageFault));
}

#[test]
fn breakpoint_resumes_execution() {
    let t = init();
    let e = t.entry(BREAKPOINT_VECTOR).expect("breakpoint installed");
    assert_eq!(e.handler, Handler::Breakpoint);
    assert_eq!(e.stack_index, None);
    assert_eq!(outcome(e.handler), Outcome::Resume);
}

#[test]
fn double_fault_runs_on_dedicated_stack_then_halts() {
    let t = init();
    let e = t.entry(DOUBLE_FAULT_VECTOR).expect("double fault installed");
    assert_eq!(e.handler, Handler::DoubleFault);
    assert_eq!(e.stack_index, Some(DOUBLE_FAULT_IST_INDEX));
    let tss = init_tss(0x10_0000);
    let top = tss.interrupt_stack_table[DOUBLE_FAULT_IST_INDEX as usize];
    assert_eq!(top, 0x10_0000 + STACK_SIZE);
    assert_eq!(tss.interrupt_stack_table.iter().filter(|&&s| s != 0).count(), 1);
    assert_eq!(outcome(e.handler), Outcome::Halt);
    assert_eq!(outcome(Handler::PageFault), Outcome::Halt);
}

#[test]
fn hardware_handlers_acknowledge_their_own_line() {
    assert_eq!(acknowledges(Handler::Timer), Some(Irq::Timer));
    assert_eq!(acknowledges(Handler::Keyboard), Some(Irq::Keyboard));
    assert_eq!(acknowledges(Handler::Rtc), Some(Irq::Rtc));
    assert_eq!(acknowledges(Handler::Breakpoint), None);
}

#[test]
fn legacy_setup_has_no_clock_line_and_runs_at_60_hz() {
    let (t, pit) = init_idt();
    assert_eq!(t.entry(40), None);
    assert_eq!(t.entry(33).map(|e| e.handler), Some(Handler::Keyboard));
    assert_eq!(pit.command, 0x36);
    assert_eq!(pit.low as u32 + 256 * pit.high as u32, 19886);
}

#[test]
fn page_fault_causes_are_decoded() {
    let c = decode_page_fault(0b00110);
    assert!(!c.protection_violation);
    assert!(c.caused_by_write);
    assert!(c.user_mode);
    assert!(!c.malformed_table);
    let d = decode_page_fault(0x1_0011);
    assert!(d.protection_violation);
    assert!(!d.caused_by_write);
    assert!(d.instruction_fetch);
}

#[test]
fn qemu_exit_codes() {
    assert_eq!(exit_qemu(QemuExitCode::Success), (0xf4, 0x10));
    assert_eq!(exit_qemu(QemuExitCode::Failed), (0xf4, 0x11));
}
