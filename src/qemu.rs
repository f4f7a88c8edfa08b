use vstd::prelude::*;

verus! {

/// I/O port of the emulator's debug-exit device.
pub const ISA_DEBUG_EXIT_PORT: u16 = 0xf4;

/// Status reported to the emulator at the end of a test run.
#[derive(Debug, Clone, Copy, PartialEq, Eq, Structural)]
pub enum QemuExitCode {
    Success,
    Failed,
}

impl QemuExitCode {
    pub open spec fn spec_code(self) -> u32 {
        match self {
            QemuExitCode::Success => 0x10,
            QemuExitCode::Failed => 0x11,
        }
    }

    pub fn code(self) -> (r: u32)
        ensures
            r == self.spec_code(),
    {
        match self {
            QemuExitCode::Success => 0x10,
            QemuExitCode::Failed => 0x11,
        }
    }
}

/// The port and the 32-bit value to write to it to end the run with
/// `exit_code`.
pub fn exit_qemu(exit_code: QemuExitCode) -> (r: (u16, u32))
    ensures
        r == (ISA_DEBUG_EXIT_PORT, exit_code.spec_code()),
{
    (ISA_DEBUG_EXIT_PORT, exit_code.code())
}

} // verus!
