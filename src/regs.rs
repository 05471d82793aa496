use vstd::prelude::*;

verus! {

/// Size of the register window; variants that mask interrupts map four
/// more bytes so that `INT_MASK` is reachable.
pub const RNG_REG_SIZE: usize = 0x10;

/// `CTRL` value that turns the generator on.
pub const RNG_ENABLE: u32 = 0x1;

/// `CTRL` value that turns the generator off.
pub const RNG_DISABLE: u32 = 0x0;

/// Number of initial words the hardware throws away before it reports data,
/// written to `STATUS` before enabling.
pub const RNG_WARMUP_COUNT: u32 = 0x40000;

/// Bit of `INT_MASK` that masks the interrupt.
pub const RNG_INT_OFF: u32 = 0x1;

/// The four registers of the block.
#[derive(Clone, Copy, Debug, PartialEq, Eq, Structural)]
pub enum Reg {
    Ctrl,
    Status,
    Data,
    IntMask,
}

impl Reg {
    pub open spec fn spec_offset(self) -> usize {
        match self {
            Reg::Ctrl => 0x0,
            Reg::Status => 0x4,
            Reg::Data => 0x8,
            Reg::IntMask => 0x10,
        }
    }

    /// Byte offset of the register inside the window.
    pub fn offset(&self) -> (r: usize)
        ensures
            r == self.spec_offset(),
    {
        match self {
            Reg::Ctrl => 0x0,
            Reg::Status => 0x4,
            Reg::Data => 0x8,
            Reg::IntMask => 0x10,
        }
    }
}

/// A register access failed (bus fault, or the mapping went away).
#[derive(Clone, Copy, Debug, PartialEq, Eq, Structural)]
pub struct IoError;

/// Errors reported to the platform layer and to the entropy consumer.
#[derive(Clone, Copy, Debug, PartialEq, Eq, Structural)]
pub enum DriverError {
    /// The register window is absent.
    NoDevice,
    /// A register access, the reset pulse or a resource operation failed.
    DeviceError,
    /// A count did not fit the width it had to be narrowed to. The read
    /// protocol never reports it: the ready count is one byte wide, so the
    /// word count and the byte count it returns provably fit.
    RangeError,
}

} // verus!
