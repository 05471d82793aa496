//! Register protocol and lifecycle logic of the BCM2835 family hardware
//! random-number generator.
//!
//! Everything that touches the hardware or the kernel (register loads and
//! stores, busy-waiting, clock and reset controllers, locks) is performed by
//! the caller. The library decides what to do next: each operation is a
//! state machine that is fed the outcome of the last request and answers with
//! the next one.

pub mod regs;
pub mod guard;
pub mod entropy;
pub mod variant;
pub mod lifecycle;

pub use regs::{DriverError, IoError, Reg};
pub use regs::{RNG_DISABLE, RNG_ENABLE, RNG_INT_OFF, RNG_REG_SIZE, RNG_WARMUP_COUNT};
pub use guard::{EnabledClock, Reset, TakeOnce};
pub use entropy::{ReadAction, ReadOp, ReadPhase};
pub use variant::{lookup_variant, resolve_variant, VariantConfig};
pub use lifecycle::{cleanup, CleanupAction, InitAction, InitOp, InitPhase, ProbeAction, ProbeOp, ProbePhase};
