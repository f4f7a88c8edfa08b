use aaos::irq::Irq;
use aaos::time::{
    halt, init, pit_phase_divisor, set_pit_frequency_divider, sleep, ticks, uptime, SleepAction,
    TickCounter,
};

#[test]
fn counter_counts_only_timer_interrupts() {
    let mut c = TickCounter::new();
    let events = [Irq::Timer, Irq::Keyboard, Irq::Timer, Irq::Rtc, Irq::Timer, Irq::Keyboard];
    for e in events {
        c.on_interrupt(e);
    }
    assert_eq!(ticks(&c), 3);
    c.tick();
    assert_eq!(c.get(), 4);
}

#[test]
fn uptime_is_ticks_times_interval() {
    assert_eq!(uptime(0), 0);
    // one interval is 3579 / 3579545 s = 999847.1... ns
    assert_eq!(uptime(1), 999_847);
    assert_eq!(uptime(3_579_545), 3_579_000_000_000);
    // ten hours of ticks stay exact to the nanosecond
    let n: u64 = 36_005_497;
    assert_eq!(uptime(n), 36_000_015_019_506);
    assert_eq!(uptime(u64::MAX), (u64::MAX as u128 * 3_579_000_000_000) / 3_579_545);
}

#[test]
fn sleep_halts_until_enough_time_passed() {
    assert_eq!(sleep(10, 10, 1), SleepAction::Halt);
    assert_eq!(sleep(0, 1, 999_847), SleepAction::Done);
    assert_eq!(sleep(0, 1, 999_848), SleepAction::Halt);
    assert_eq!(sleep(5, 5, 0), SleepAction::Done);
}

#[test]
fn halt_restores_masked_interrupts() {
    assert!(halt(false));
    assert!(!halt(true));
}

#[test]
fn pit_programming_bytes() {
    let p = init();
    assert_eq!(p.command, 0x36);
    assert_eq!(p.data_port, 0x40);
    assert_eq!((p.low, p.high), (0xa9, 0x04));
    let q = set_pit_frequency_divider(0x1234, 2);
    assert_eq!(q.command, 0xb6);
    assert_eq!(q.data_port, 0x42);
    assert_eq!((q.low, q.high), (0x34, 0x12));
}

#[test]
fn pit_phase_divisor_for_rates() {
    assert_eq!(pit_phase_divisor(60), 19886);
    assert_eq!(pit_phase_divisor(19), 62798);
    assert_eq!(pit_phase_divisor(1_193_180), 1);
}
