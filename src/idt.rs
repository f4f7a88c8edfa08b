use vstd::prelude::*;
use crate::bits::{bit_of, get_bit};
use crate::irq::{InterruptIndex, Irq};
use crate::time::{PitProgram, pit_phase_divisor, set_pit_frequency_divider};

verus! {

/// Number of interrupt vectors.
pub const VECTOR_COUNT: usize = 256;

/// CPU-defined exception vectors that this kernel handles.
pub const BREAKPOINT_VECTOR: u8 = 3;
pub const DOUBLE_FAULT_VECTOR: u8 = 8;
pub const PAGE_FAULT_VECTOR: u8 = 14;

/// Slot of the interrupt stack table that holds the double-fault stack.
pub const DOUBLE_FAULT_IST_INDEX: u16 = 0;

/// Bytes of the dedicated double-fault stack.
pub const STACK_SIZE: u64 = 4096 * 5;

/// Rate, in interrupts per second, of the first interrupt setup's timer.
pub const LEGACY_TIMER_HZ: u32 = 60;

/// The handler routines the kernel installs.
#[derive(Debug, Clone, Copy, PartialEq, Eq, Structural)]
pub enum Handler {
    Breakpoint,
    DoubleFault,
    PageFault,
    Timer,
    Keyboard,
    Rtc,
}

/// An installed vector: its handler and, where it runs on a dedicated
/// stack, the slot of that stack in the interrupt stack table.
#[derive(Debug, Clone, Copy, PartialEq, Eq, Structural)]
pub struct Entry {
    pub handler: Handler,
    pub stack_index: Option<u16>,
}

/// What happens once a handler has done its work.
#[derive(Debug, Clone, Copy, PartialEq, Eq, Structural)]
pub enum Outcome {
    /// The interrupted code continues at its next instruction.
    Resume,
    /// The processor halts for good.
    Halt,
}

/// The vector table of the kernel: breakpoint, double fault on its own
/// stack, page fault, and the remapped timer, keyboard and clock lines.
pub open spec fn standard_entry(v: int) -> Option<Entry> {
    if v == BREAKPOINT_VECTOR {
        Some(Entry { handler: Handler::Breakpoint, stack_index: None })
    } else if v == DOUBLE_FAULT_VECTOR {
        Some(Entry { handler: Handler::DoubleFault, stack_index: Some(DOUBLE_FAULT_IST_INDEX) })
    } else if v == PAGE_FAULT_VECTOR {
        Some(Entry { handler: Handler::PageFault, stack_index: None })
    } else if v == Irq::Timer.vector() {
        Some(Entry { handler: Handler::Timer, stack_index: None })
    } else if v == Irq::Keyboard.vector() {
        Some(Entry { handler: Handler::Keyboard, stack_index: None })
    } else if v == Irq::Rtc.vector() {
        Some(Entry { handler: Handler::Rtc, stack_index: None })
    } else {
        None
    }
}

/// The first setup's table: the same without the clock line.
pub open spec fn legacy_entry(v: int) -> Option<Entry> {
    if v == Irq::Rtc.vector() {
        None
    } else {
        standard_entry(v)
    }
}

/// 256 slots, each empty or holding an installed handler.
pub struct VectorTable {
    entries: Vec<Option<Entry>>,
}

impl VectorTable {
    pub closed spec fn entries(self) -> Seq<Option<Entry>> {
        self.entries@
    }

    /// A table with every vector unhandled.
    pub fn new() -> (r: Self)
        ensures
            r.entries().len() == VECTOR_COUNT,
            forall|v: int| 0 <= v < VECTOR_COUNT ==> #[trigger] r.entries()[v] is None,
    {
        let mut entries: Vec<Option<Entry>> = Vec::new();
        let mut i: usize = 0;
        while i < VECTOR_COUNT
            invariant
                i <= VECTOR_COUNT,
                entries@.len() == i,
                forall|v: int| 0 <= v < i ==> #[trigger] entries@[v] is None,
            decreases VECTOR_COUNT - i,
        {
            entries.push(None);
            i = i + 1;
        }
        VectorTable { entries }
    }

    /// Installs `handler` on `vector`, on the current stack.
    pub fn set_handler(&mut self, vector: u8, handler: Handler)
        requires
            old(self).entries().len() == VECTOR_COUNT,
        ensures
            final(self).entries() == old(self).entries().update(
                vector as int,
                Some(Entry { handler, stack_index: None }),
            ),
    {
        self.entries.set(vector as usize, Some(Entry { handler, stack_index: None }));
    }

    /// Makes the handler installed on `vector` run on the stack in slot
    /// `index` of the interrupt stack table.
    pub fn set_stack_index(&mut self, vector: u8, index: u16)
        requires
            old(self).entries().len() == VECTOR_COUNT,
            old(self).entries()[vector as int] is Some,
        ensures
            final(self).entries() == old(self).entries().update(
                vector as int,
                Some(Entry { handler: old(self).entries()[vector as int]->0.handler, stack_index: Some(index) }),
            ),
    {
        let e = self.entries[vector as usize];
        match e {
            Some(entry) => {
                self.entries.set(
                    vector as usize,
                    Some(Entry { handler: entry.handler, stack_index: Some(index) }),
                );
            },
            None => {},
        }
    }

    /// The slot of `vector`.
    pub fn entry(&self, vector: u8) -> (r: Option<Entry>)
        requires
            self.entries().len() == VECTOR_COUNT,
        ensures
            r == self.entries()[vector as int],
    {
        self.entries[vector as usize]
    }
}

/// Builds the kernel's vector table.
pub fn init() -> (t: VectorTable)
    ensures
        t.entries().len() == VECTOR_COUNT,
        forall|v: int| 0 <= v < VECTOR_COUNT ==> #[trigger] t.entries()[v] == standard_entry(v),
{
    let mut t = VectorTable::new();
    t.set_handler(BREAKPOINT_VECTOR, Handler::Breakpoint);
    t.set_handler(DOUBLE_FAULT_VECTOR, Handler::DoubleFault);
    t.set_stack_index(DOUBLE_FAULT_VECTOR, DOUBLE_FAULT_IST_INDEX);
    t.set_handler(PAGE_FAULT_VECTOR, Handler::PageFault);
    t.set_handler(Irq::Timer.as_u8(), Handler::Timer);
    t.set_handler(Irq::Keyboard.as_u8(), Handler::Keyboard);
    t.set_handler(Irq::Rtc.as_u8(), Handler::Rtc);
    t
}

/// Builds the first setup's vector table, and the timer programming for
/// its 60 Hz rate.
pub fn init_idt() -> (r: (VectorTable, PitProgram))
    ensures
        r.0.entries().len() == VECTOR_COUNT,
        forall|v: int| 0 <= v < VECTOR_COUNT ==> #[trigger] r.0.entries()[v] == legacy_entry(v),
        r.1.command == 0x36,
        r.1.data_port == 0x40,
        r.1.low as nat + 256 * r.1.high as nat == 1_193_180nat / (LEGACY_TIMER_HZ as nat),
{
    let mut t = VectorTable::new();
    t.set_handler(BREAKPOINT_VECTOR, Handler::Breakpoint);
    t.set_handler(DOUBLE_FAULT_VECTOR, Handler::DoubleFault);
    t.set_stack_index(DOUBLE_FAULT_VECTOR, DOUBLE_FAULT_IST_INDEX);
    t.set_handler(PAGE_FAULT_VECTOR, Handler::PageFault);
    t.set_handler(InterruptIndex::Timer.as_u8(), Handler::Timer);
    t.set_handler(InterruptIndex::Keyboard.as_u8(), Handler::Keyboard);
    let divisor = pit_phase_divisor(LEGACY_TIMER_HZ);
    (t, set_pit_frequency_divider(divisor, 0))
}

/// What follows each handler: only the breakpoint among the exceptions
/// resumes; a double fault or a page fault halts, as nothing can page in.
pub fn outcome(h: Handler) -> (r: Outcome)
    ensures
        r == (match h {
            Handler::DoubleFault | Handler::PageFault => Outcome::Halt,
            _ => Outcome::Resume,
        }),
{
    match h {
        Handler::DoubleFault | Handler::PageFault => Outcome::Halt,
        _ => Outcome::Resume,
    }
}

/// The line a handler acknowledges at the interrupt controller, once, after
/// its own work; exception handlers acknowledge none.
pub fn acknowledges(h: Handler) -> (r: Option<Irq>)
    ensures
        r == (match h {
            Handler::Timer => Some(Irq::Timer),
            Handler::Keyboard => Some(Irq::Keyboard),
            Handler::Rtc => Some(Irq::Rtc),
            _ => None,
        }),
{
    match h {
        Handler::Timer => Some(Irq::Timer),
        Handler::Keyboard => Some(Irq::Keyboard),
        Handler::Rtc => Some(Irq::Rtc),
        _ => None,
    }
}

/// The causes a page-fault error code reports.
#[derive(Debug, Clone, Copy, PartialEq, Eq, Structural)]
pub struct PageFaultCause {
    /// The page was present: a protection violation, not a missing page.
    pub protection_violation: bool,
    pub caused_by_write: bool,
    pub user_mode: bool,
    pub malformed_table: bool,
    pub instruction_fetch: bool,
}

/// Decodes the low bits of a page-fault error code.
pub fn decode_page_fault(code: u64) -> (r: PageFaultCause)
    ensures
        r.protection_violation == bit_of((code % 256) as u8, 0),
        r.caused_by_write == bit_of((code % 256) as u8, 1),
        r.user_mode == bit_of((code % 256) as u8, 2),
        r.malformed_table == bit_of((code % 256) as u8, 3),
        r.instruction_fetch == bit_of((code % 256) as u8, 4),
{
    let low = (code % 256) as u8;
    PageFaultCause {
        protection_violation: get_bit(low, 0),
        caused_by_write: get_bit(low, 1),
        user_mode: get_bit(low, 2),
        malformed_table: get_bit(low, 3),
        instruction_fetch: get_bit(low, 4),
    }
}

/// The task state segment's interrupt stack table: the top of each
/// dedicated stack, or 0 where the slot is unused.
#[derive(Debug, Clone, Copy, PartialEq, Eq)]
pub struct TaskStateSegment {
    pub interrupt_stack_table: [u64; 7],
}

/// A task state segment whose only dedicated stack is the double-fault
/// stack of `STACK_SIZE` bytes at `stack_start`; stacks grow down, so the
/// slot holds its end.
pub fn init_tss(stack_start: u64) -> (r: TaskStateSegment)
    requires
        stack_start + STACK_SIZE <= u64::MAX,
    ensures
        r.interrupt_stack_table@[DOUBLE_FAULT_IST_INDEX as int] == stack_start + STACK_SIZE,
        forall|i: int| 0 <= i < 7 && i != DOUBLE_FAULT_IST_INDEX ==> #[trigger] r.interrupt_stack_table@[i] == 0,
{
    let top = stack_start + STACK_SIZE;
    TaskStateSegment { interrupt_stack_table: [top, 0, 0, 0, 0, 0, 0] }
}

/// In the kernel's table exactly one vector, the double fault's, runs on a
/// dedicated stack; every CPU exception it handles lies below 32 and every
/// hardware line at or above.
pub proof fn lemma_only_double_fault_has_own_stack(v: int)
    requires
        0 <= v < VECTOR_COUNT,
    ensures
        (standard_entry(v) matches Some(e) && e.stack_index is Some) <==> v == DOUBLE_FAULT_VECTOR,
        standard_entry(v) matches Some(e) ==> (v < 32 <==> (e.handler == Handler::Breakpoint
            || e.handler == Handler::DoubleFault || e.handler == Handler::PageFault)),
{
}

} // verus!
