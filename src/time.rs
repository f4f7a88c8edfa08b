use vstd::prelude::*;
use crate::irq::Irq;

verus! {

/// The interval timer's input clock is 3_579_545 / 3 Hz.
pub const PIT_CLOCK_NUMERATOR: u64 = 3_579_545;
pub const PIT_CLOCK_DENOMINATOR: u64 = 3;

/// Divider programmed into the timer: one tick every 1193 input cycles.
pub const PIT_DIVIDER: u32 = 1193;

/// Nanoseconds per second.
pub const NANOS_PER_SEC: u64 = 1_000_000_000;

/// Command port and first data port of the interval timer.
pub const PIT_COMMAND_PORT: u16 = 0x43;
pub const PIT_DATA_PORT: u16 = 0x40;

/// Exact uptime after `n` ticks, in nanoseconds, times the input clock's
/// numerator: `n` intervals of `PIT_DIVIDER * 3 / 3_579_545` seconds.
pub open spec fn scaled_uptime(n: nat) -> nat {
    n * (PIT_DIVIDER as nat) * (PIT_CLOCK_DENOMINATOR as nat) * (NANOS_PER_SEC as nat)
}

/// Uptime after `n` ticks in whole nanoseconds, rounded down.
pub open spec fn uptime_nanos(n: nat) -> nat {
    scaled_uptime(n) / (PIT_CLOCK_NUMERATOR as nat)
}

/// Number of timer interrupts in a sequence of delivered interrupts.
pub open spec fn timer_count(events: Seq<Irq>) -> nat
    decreases events.len(),
{
    if events.len() == 0 {
        0
    } else {
        timer_count(events.drop_last()) + if events.last() == Irq::Timer {
            1nat
        } else {
            0nat
        }
    }
}

/// The tick counter: advanced once per timer interrupt, by nothing else.
pub struct TickCounter {
    count: u64,
}

/// What delivering one interrupt does to the counter.
pub open spec fn interrupt_step(before: TickCounter, after: TickCounter, irq: Irq) -> bool {
    after.value() == before.value() + if irq == Irq::Timer {
        1nat
    } else {
        0nat
    }
}

impl TickCounter {
    pub closed spec fn value(self) -> nat {
        self.count as nat
    }

    pub fn new() -> (r: Self)
        ensures
            r.value() == 0,
    {
        TickCounter { count: 0 }
    }

    /// Records one timer interrupt.
    pub fn tick(&mut self)
        requires
            old(self).value() < u64::MAX,
        ensures
            final(self).value() == old(self).value() + 1,
    {
        self.count = self.count + 1;
    }

    /// Records the delivery of `irq`; only the timer advances the count.
    pub fn on_interrupt(&mut self, irq: Irq)
        requires
            old(self).value() < u64::MAX,
        ensures
            interrupt_step(*old(self), *final(self), irq),
    {
        if irq == Irq::Timer {
            self.tick();
        }
    }

    pub fn get(&self) -> (r: u64)
        ensures
            r == self.value(),
    {
        self.count
    }
}

/// The number of timer interrupts seen so far.
pub fn ticks(counter: &TickCounter) -> (r: u64)
    ensures
        r == counter.value(),
{
    counter.get()
}

/// Uptime after `ticks` timer interrupts, in nanoseconds rounded down.
/// Computed in 128 bits, so no count of a 64-bit counter loses precision.
pub fn uptime(ticks: u64) -> (r: u128)
    ensures
        r == uptime_nanos(ticks as nat),
{
    // PIT_DIVIDER * PIT_CLOCK_DENOMINATOR * NANOS_PER_SEC
    let factor: u128 = 3_579_000_000_000;
    assert(factor == (PIT_DIVIDER as nat) * (PIT_CLOCK_DENOMINATOR as nat) * (NANOS_PER_SEC as nat));
    let t = ticks as u128;
    proof {
        assert(t * factor <= 0xffff_ffff_ffff_ffffu128 * 3_579_000_000_000u128) by (nonlinear_arith)
            requires
                t <= 0xffff_ffff_ffff_ffffu128,
                factor == 3_579_000_000_000u128,
        {}
        assert(t * factor == scaled_uptime(ticks as nat)) by (nonlinear_arith)
            requires
                t == ticks,
                factor == (PIT_DIVIDER as nat) * (PIT_CLOCK_DENOMINATOR as nat) * (NANOS_PER_SEC as nat),
        {}
    }
    let scaled: u128 = t * factor;
    scaled / (PIT_CLOCK_NUMERATOR as u128)
}

/// What `sleep` does after waking: keep halting, or return.
#[derive(Debug, Clone, Copy, PartialEq, Eq, Structural)]
pub enum SleepAction {
    Halt,
    Done,
}

/// One decision of `sleep`: it started at tick `start`, is now at tick
/// `now`, and was asked to sleep `nanos` nanoseconds. Spurious wakeups
/// simply lead to another halt.
pub fn sleep(start: u64, now: u64, nanos: u128) -> (r: SleepAction)
    requires
        start <= now,
    ensures
        (r == SleepAction::Done) == (uptime_nanos(now as nat) - uptime_nanos(start as nat) >= nanos),
{
    let a = uptime(start);
    let b = uptime(now);
    proof {
        lemma_uptime_monotonic(start as nat, now as nat);
    }
    if b - a >= nanos {
        SleepAction::Done
    } else {
        SleepAction::Halt
    }
}

/// Whether interrupts must be masked again after the enable-and-halt of one
/// sleep step: exactly when they were masked before it, so a sleep inside a
/// critical section never leaves interrupts enabled.
pub fn halt(enabled_before: bool) -> (mask_after: bool)
    ensures
        mask_after == !enabled_before,
{
    !enabled_before
}

proof fn lemma_uptime_monotonic(a: nat, b: nat)
    requires
        a <= b,
    ensures
        uptime_nanos(a) <= uptime_nanos(b),
{
    assert(scaled_uptime(a) <= scaled_uptime(b)) by (nonlinear_arith)
        requires
            a <= b,
    {}
    vstd::arithmetic::div_mod::lemma_div_is_ordered(
        scaled_uptime(a) as int,
        scaled_uptime(b) as int,
        PIT_CLOCK_NUMERATOR as int,
    );
}

/// The bytes that program the interval timer: the command byte for the
/// port `PIT_COMMAND_PORT`, then the divider's low and high byte for the
/// channel's data port.
#[derive(Debug, Clone, Copy, PartialEq, Eq, Structural)]
pub struct PitProgram {
    pub command: u8,
    pub data_port: u16,
    pub low: u8,
    pub high: u8,
}

/// Programs `channel` as a square-wave generator (mode 3 access: low byte
/// then high byte; operating mode 6) with `divider`; a divider of 0 means
/// 65536.
pub fn set_pit_frequency_divider(divider: u16, channel: u8) -> (r: PitProgram)
    requires
        channel < 4,
    ensures
        r.command == channel * 64 + 3 * 16 + 6,
        r.data_port == PIT_DATA_PORT + channel,
        r.low == divider % 256,
        r.high == divider / 256,
{
    let access_mode: u8 = 3;
    let operating_mode: u8 = 6;
    PitProgram {
        command: channel * 64 + access_mode * 16 + operating_mode,
        data_port: PIT_DATA_PORT + channel as u16,
        low: (divider % 256) as u8,
        high: (divider / 256) as u8,
    }
}

/// The divider that the tick source uses, for channel 0.
pub fn init() -> (r: PitProgram)
    ensures
        r.command == 0x36,
        r.data_port == PIT_DATA_PORT,
        r.low as nat + 256 * r.high as nat == PIT_DIVIDER,
{
    let divider: u16 = if PIT_DIVIDER < 0xffff {
        PIT_DIVIDER as u16
    } else {
        0
    };
    set_pit_frequency_divider(divider, 0)
}

/// The divider for a timer rate of `hz` interrupts per second, from the
/// nominal 1_193_180 Hz input clock. Rates below 19 Hz need a divider
/// above `u16::MAX` and are not accepted.
pub fn pit_phase_divisor(hz: u32) -> (r: u16)
    requires
        hz >= 19,
    ensures
        r == 1_193_180nat / (hz as nat),
{
    proof {
        vstd::arithmetic::div_mod::lemma_div_is_ordered_by_denominator(1_193_180, 19, hz as int);
    }
    (1_193_180u32 / hz) as u16
}

/// Starting from zero and fed any sequence of interrupts, the counter
/// equals the number of timer interrupts among them, and the uptime is
/// that number of timer intervals, rounded down to whole nanoseconds.
pub proof fn lemma_ticks_count_timer_interrupts(states: Seq<TickCounter>, events: Seq<Irq>)
    requires
        states.len() == events.len() + 1,
        states[0].value() == 0,
        forall|k: int| 0 <= k < events.len() ==> interrupt_step(#[trigger] states[k], states[k + 1], events[k]),
    ensures
        states.last().value() == timer_count(events),
        uptime_nanos(states.last().value()) * (PIT_CLOCK_NUMERATOR as nat) <= timer_count(events)
            * (PIT_DIVIDER as nat) * (PIT_CLOCK_DENOMINATOR as nat) * (NANOS_PER_SEC as nat),
        timer_count(events) * (PIT_DIVIDER as nat) * (PIT_CLOCK_DENOMINATOR as nat) * (
        NANOS_PER_SEC as nat) < (uptime_nanos(states.last().value()) + 1) * (
        PIT_CLOCK_NUMERATOR as nat),
    decreases events.len(),
{
    if events.len() > 0 {
        let n = events.len() as int;
        lemma_ticks_count_timer_interrupts(states.drop_last(), events.drop_last());
        assert(states.drop_last().last() == states[n - 1]);
        assert(interrupt_step(states[n - 1], states[n], events[n - 1]));
    }
    let s = scaled_uptime(timer_count(events));
    vstd::arithmetic::div_mod::lemma_fundamental_div_mod(s as int, PIT_CLOCK_NUMERATOR as int);
    assert(s == timer_count(events) * (PIT_DIVIDER as nat) * (PIT_CLOCK_DENOMINATOR as nat) * (
    NANOS_PER_SEC as nat));
    let q = s as int / PIT_CLOCK_NUMERATOR as int;
    assert(q * PIT_CLOCK_NUMERATOR <= s < (q + 1) * PIT_CLOCK_NUMERATOR) by (nonlinear_arith)
        requires
            s == PIT_CLOCK_NUMERATOR * q + s as int % PIT_CLOCK_NUMERATOR as int,
            0 <= (s as int % PIT_CLOCK_NUMERATOR as int),
            (s as int % PIT_CLOCK_NUMERATOR as int) < PIT_CLOCK_NUMERATOR,
    {}
}

} // verus!
