use vstd::prelude::*;

verus! {

/// First vector of the master interrupt controller.
pub const PIC_1_OFFSET: u8 = 32;

/// First vector of the slave interrupt controller, cascaded off the master.
pub const PIC_2_OFFSET: u8 = 40;

/// Number of lines on each of the two chained controllers.
pub const PIC_LINES: u8 = 8;

/// A hardware interrupt request, named by the device that raises it.
#[derive(Debug, Clone, Copy, PartialEq, Eq, Structural)]
pub enum Irq {
    Timer,
    Keyboard,
    Rtc,
}

impl Irq {
    /// The controller line (0..16) that the device is wired to.
    pub open spec fn line(self) -> nat {
        match self {
            Irq::Timer => 0,
            Irq::Keyboard => 1,
            Irq::Rtc => 8,
        }
    }

    /// The CPU vector the remapped line is delivered on.
    pub open spec fn vector(self) -> nat {
        if self.line() < PIC_LINES as nat {
            PIC_1_OFFSET as nat + self.line()
        } else {
            (PIC_2_OFFSET as int + self.line() - PIC_LINES as int) as nat
        }
    }

    /// Whether the line belongs to the slave controller.
    pub open spec fn on_slave(self) -> bool {
        self.line() >= PIC_LINES as nat
    }

    pub fn as_u8(self) -> (r: u8)
        ensures
            r as nat == self.vector(),
    {
        match self {
            Irq::Timer => PIC_1_OFFSET,
            Irq::Keyboard => PIC_1_OFFSET + 1,
            Irq::Rtc => PIC_2_OFFSET,
        }
    }

    pub fn as_usize(self) -> (r: usize)
        ensures
            r as nat == self.vector(),
    {
        self.as_u8() as usize
    }

    /// Whether acknowledging this line must also signal the slave controller.
    pub fn is_on_slave(self) -> (r: bool)
        ensures
            r == self.on_slave(),
    {
        let v = self.as_u8();
        v >= PIC_2_OFFSET
    }
}

/// The hardware vectors of the first interrupt setup, which served only the
/// timer and the keyboard.
#[derive(Debug, Clone, Copy, PartialEq, Eq, Structural)]
pub enum InterruptIndex {
    Timer,
    Keyboard,
}

impl InterruptIndex {
    pub open spec fn vector(self) -> nat {
        match self {
            InterruptIndex::Timer => PIC_1_OFFSET as nat,
            InterruptIndex::Keyboard => PIC_1_OFFSET as nat + 1,
        }
    }

    pub fn as_u8(self) -> (r: u8)
        ensures
            r as nat == self.vector(),
    {
        match self {
            InterruptIndex::Timer => PIC_1_OFFSET,
            InterruptIndex::Keyboard => PIC_1_OFFSET + 1,
        }
    }

    pub fn as_usize(self) -> (r: usize)
        ensures
            r as nat == self.vector(),
    {
        self.as_u8() as usize
    }
}

/// The two controllers' vector ranges are disjoint, lie above the 32
/// CPU-defined exception vectors, and every device line lands in the range
/// of the controller it is wired to; distinct devices get distinct vectors.
pub proof fn lemma_vectors_disjoint(a: Irq, b: Irq)
    ensures
        a.vector() >= 32,
        a.vector() < PIC_2_OFFSET as nat + PIC_LINES as nat,
        !a.on_slave() ==> PIC_1_OFFSET as nat <= a.vector() < PIC_2_OFFSET as nat,
        a.on_slave() ==> PIC_2_OFFSET as nat <= a.vector(),
        a != b ==> a.vector() != b.vector(),
        PIC_1_OFFSET as nat + PIC_LINES as nat <= PIC_2_OFFSET as nat,
{
}

} // verus!
